//! The file-serving handler's decision logic: which requests it takes, how
//! a path's extension maps to a MIME type, and the error page it writes.
//! Touching the file system — existence checks, reads, directory listings —
//! is the caller's business.

use vstd::prelude::*;
use vstd::string::{StrSliceExecFns, StringSliceAdditionalSpecFns};
use vstd::utf8::encode_utf8;
use crate::handler::{spec_starts_with, str_starts_with};
use crate::response::{spec_head, Response};
use crate::text::spec_dec_digits;
use crate::util::spec_status_str;
use crate::valuesmap::{spec_key, vm_set};

verus! {

/// The byte of `/`.
pub const SLASH: u8 = 47;

/// The byte of `.`.
pub const DOT: u8 = 46;

/// Compares two byte strings.
pub fn bytes_eq(a: &[u8], b: &[u8]) -> (r: bool)
    ensures
        r == (a@ == b@),
{
    if a.len() != b.len() {
        return false;
    }
    let mut i: usize = 0;
    while i < a.len()
        invariant
            0 <= i <= a@.len(),
            a@.len() == b@.len(),
            forall|j: int| 0 <= j < i ==> a@[j] == b@[j],
        decreases a@.len() - i,
    {
        if a[i] != b[i] {
            assert(a@ != b@);
            return false;
        }
        i = i + 1;
    }
    proof {
        assert(a@ =~= b@);
    }
    true
}

/// The part of `u` after the last occurrence of `b`; all of `u` when `b`
/// does not occur.
pub open spec fn spec_suffix_after(u: Seq<u8>, b: u8) -> Seq<u8>
    decreases u.len(),
{
    if u.len() == 0 {
        u
    } else if u.last() == b {
        Seq::empty()
    } else {
        spec_suffix_after(u.drop_last(), b).push(u.last())
    }
}

/// The extension of a path: the part of the file name (after the last `/`)
/// that follows its last `.`; empty when the name has no dot or only a
/// leading one.
pub open spec fn spec_extension(u: Seq<u8>) -> Seq<u8> {
    let name = spec_suffix_after(u, SLASH);
    let ext = spec_suffix_after(name, DOT);
    if ext.len() == name.len() || ext.len() == name.len() - 1 {
        Seq::empty()
    } else {
        ext
    }
}

/// A byte string with ASCII upper-case letters lowered.
pub open spec fn spec_lower_bytes(u: Seq<u8>) -> Seq<u8> {
    u.map(|i: int, b: u8| if 65 <= b <= 90 { (b + 32) as u8 } else { b })
}

/// The built-in extension table, matched against the lower-cased extension
/// bytes.
#[verifier::opaque]
pub open spec fn spec_builtin_mime(eb: Seq<u8>) -> Option<Seq<char>> {
    if eb == encode_utf8("jpg"@) {
        Some("image/jpeg"@)
    } else if eb == encode_utf8("jpeg"@) {
        Some("image/jpeg"@)
    } else if eb == encode_utf8("png"@) {
        Some("image/png"@)
    } else if eb == encode_utf8("gif"@) {
        Some("image/gif"@)
    } else if eb == encode_utf8("html"@) {
        Some("text/html"@)
    } else if eb == encode_utf8("htm"@) {
        Some("text/html"@)
    } else if eb == encode_utf8("txt"@) {
        Some("text/plain"@)
    } else if eb == encode_utf8("css"@) {
        Some("text/css"@)
    } else if eb == encode_utf8("json"@) {
        Some("application/json"@)
    } else if eb == encode_utf8("js"@) {
        Some("application/javascript"@)
    } else if eb == encode_utf8(".bz"@) {
        Some("application/x-bzip"@)
    } else if eb == encode_utf8(".bz2"@) {
        Some("application/x-bzip2"@)
    } else if eb == encode_utf8(".csv"@) {
        Some("text/csv"@)
    } else if eb == encode_utf8(".eot"@) {
        Some("application/vnd.ms-fontobject"@)
    } else if eb == encode_utf8(".epub"@) {
        Some("application/epub+zip"@)
    } else if eb == encode_utf8(".gz"@) {
        Some("application/gzip"@)
    } else if eb == encode_utf8(".gif"@) {
        Some("image/gif"@)
    } else if eb == encode_utf8(".ico"@) {
        Some("image/vnd.microsoft.icon"@)
    } else if eb == encode_utf8(".ics"@) {
        Some("text/calendar"@)
    } else if eb == encode_utf8(".jar"@) {
        Some("application/java-archive"@)
    } else if eb == encode_utf8(".mjs"@) {
        Some("text/javascript"@)
    } else if eb == encode_utf8(".mp3"@) {
        Some("audio/mpeg"@)
    } else if eb == encode_utf8(".mp4"@) {
        Some("video/mp4"@)
    } else if eb == encode_utf8(".mpeg"@) {
        Some("video/mpeg"@)
    } else if eb == encode_utf8(".odp"@) {
        Some("application/vnd.oasis.opendocument.presentation"@)
    } else if eb == encode_utf8(".ods"@) {
        Some("application/vnd.oasis.opendocument.spreadsheet"@)
    } else if eb == encode_utf8(".odt"@) {
        Some("application/vnd.oasis.opendocument.text"@)
    } else if eb == encode_utf8(".oga"@) {
        Some("audio/ogg"@)
    } else if eb == encode_utf8(".ogv"@) {
        Some("video/ogg"@)
    } else if eb == encode_utf8(".ogx"@) {
        Some("application/ogg"@)
    } else if eb == encode_utf8(".opus"@) {
        Some("audio/opus"@)
    } else if eb == encode_utf8(".otf"@) {
        Some("font/otf"@)
    } else if eb == encode_utf8(".png"@) {
        Some("image/png"@)
    } else if eb == encode_utf8(".pdf"@) {
        Some("application/pdf\t\t\t"@)
    } else if eb == encode_utf8(".rar"@) {
        Some("application/vnd.rar"@)
    } else if eb == encode_utf8(".rtf"@) {
        Some("application/rtf"@)
    } else if eb == encode_utf8(".svg"@) {
        Some("image/svg+xml"@)
    } else if eb == encode_utf8(".tif"@) {
        Some("image/tiff\t\t\t"@)
    } else if eb == encode_utf8(".ttf"@) {
        Some("font/ttf"@)
    } else if eb == encode_utf8(".wav"@) {
        Some("audio/wav"@)
    } else if eb == encode_utf8(".weba"@) {
        Some("audio/webm"@)
    } else if eb == encode_utf8(".webm"@) {
        Some("video/webm"@)
    } else if eb == encode_utf8(".webp"@) {
        Some("image/webp"@)
    } else if eb == encode_utf8(".woff"@) {
        Some("font/woff"@)
    } else if eb == encode_utf8(".woff2"@) {
        Some("font/woff2"@)
    } else if eb == encode_utf8(".xhtml"@) {
        Some("application/xhtml+xml"@)
    } else if eb == encode_utf8(".xml"@) {
        Some("application/xml\t\t\t"@)
    } else if eb == encode_utf8(".zip"@) {
        Some("application/zip"@)
    } else if eb == encode_utf8(".7z"@) {
        Some("application/x-7z-compressed"@)
    } else {
        None
    }
}

/// The first matching entry of the custom extension table.
pub open spec fn spec_custom_mime(table: Seq<(String, String)>, eb: Seq<u8>) -> Option<Seq<char>>
    decreases table.len(),
{
    if table.len() == 0 {
        None
    } else if encode_utf8(table[0].0@) == eb {
        Some(table[0].1@)
    } else {
        spec_custom_mime(table.drop_first(), eb)
    }
}

/// The MIME type for a lower-cased extension: the built-in table first, then
/// the custom table, then `application/octet-stream`.
pub open spec fn spec_mime_for(table: Seq<(String, String)>, eb: Seq<u8>) -> Seq<char> {
    match spec_builtin_mime(eb) {
        Some(m) => m,
        None => match spec_custom_mime(table, eb) {
            Some(m) => m,
            None => "application/octet-stream"@,
        },
    }
}

/// Looks the lower-cased extension bytes up in the built-in table.
fn builtin_mime(eb: &[u8]) -> (r: Option<String>)
    ensures
        match r {
            Some(s) => spec_builtin_mime(eb@) == Some(s@),
            None => spec_builtin_mime(eb@) is None,
        },
{
    proof {
        reveal(spec_builtin_mime);
    }
    if bytes_eq(eb, "jpg".as_bytes()) {
        Some(String::from_str("image/jpeg"))
    } else if bytes_eq(eb, "jpeg".as_bytes()) {
        Some(String::from_str("image/jpeg"))
    } else if bytes_eq(eb, "png".as_bytes()) {
        Some(String::from_str("image/png"))
    } else if bytes_eq(eb, "gif".as_bytes()) {
        Some(String::from_str("image/gif"))
    } else if bytes_eq(eb, "html".as_bytes()) {
        Some(String::from_str("text/html"))
    } else if bytes_eq(eb, "htm".as_bytes()) {
        Some(String::from_str("text/html"))
    } else if bytes_eq(eb, "txt".as_bytes()) {
        Some(String::from_str("text/plain"))
    } else if bytes_eq(eb, "css".as_bytes()) {
        Some(String::from_str("text/css"))
    } else if bytes_eq(eb, "json".as_bytes()) {
        Some(String::from_str("application/json"))
    } else if bytes_eq(eb, "js".as_bytes()) {
        Some(String::from_str("application/javascript"))
    } else if bytes_eq(eb, ".bz".as_bytes()) {
        Some(String::from_str("application/x-bzip"))
    } else if bytes_eq(eb, ".bz2".as_bytes()) {
        Some(String::from_str("application/x-bzip2"))
    } else if bytes_eq(eb, ".csv".as_bytes()) {
        Some(String::from_str("text/csv"))
    } else if bytes_eq(eb, ".eot".as_bytes()) {
        Some(String::from_str("application/vnd.ms-fontobject"))
    } else if bytes_eq(eb, ".epub".as_bytes()) {
        Some(String::from_str("application/epub+zip"))
    } else if bytes_eq(eb, ".gz".as_bytes()) {
        Some(String::from_str("application/gzip"))
    } else if bytes_eq(eb, ".gif".as_bytes()) {
        Some(String::from_str("image/gif"))
    } else if bytes_eq(eb, ".ico".as_bytes()) {
        Some(String::from_str("image/vnd.microsoft.icon"))
    } else if bytes_eq(eb, ".ics".as_bytes()) {
        Some(String::from_str("text/calendar"))
    } else if bytes_eq(eb, ".jar".as_bytes()) {
        Some(String::from_str("application/java-archive"))
    } else if bytes_eq(eb, ".mjs".as_bytes()) {
        Some(String::from_str("text/javascript"))
    } else if bytes_eq(eb, ".mp3".as_bytes()) {
        Some(String::from_str("audio/mpeg"))
    } else if bytes_eq(eb, ".mp4".as_bytes()) {
        Some(String::from_str("video/mp4"))
    } else if bytes_eq(eb, ".mpeg".as_bytes()) {
        Some(String::from_str("video/mpeg"))
    } else if bytes_eq(eb, ".odp".as_bytes()) {
        Some(String::from_str("application/vnd.oasis.opendocument.presentation"))
    } else if bytes_eq(eb, ".ods".as_bytes()) {
        Some(String::from_str("application/vnd.oasis.opendocument.spreadsheet"))
    } else if bytes_eq(eb, ".odt".as_bytes()) {
        Some(String::from_str("application/vnd.oasis.opendocument.text"))
    } else if bytes_eq(eb, ".oga".as_bytes()) {
        Some(String::from_str("audio/ogg"))
    } else if bytes_eq(eb, ".ogv".as_bytes()) {
        Some(String::from_str("video/ogg"))
    } else if bytes_eq(eb, ".ogx".as_bytes()) {
        Some(String::from_str("application/ogg"))
    } else if bytes_eq(eb, ".opus".as_bytes()) {
        Some(String::from_str("audio/opus"))
    } else if bytes_eq(eb, ".otf".as_bytes()) {
        Some(String::from_str("font/otf"))
    } else if bytes_eq(eb, ".png".as_bytes()) {
        Some(String::from_str("image/png"))
    } else if bytes_eq(eb, ".pdf".as_bytes()) {
        Some(String::from_str("application/pdf\t\t\t"))
    } else if bytes_eq(eb, ".rar".as_bytes()) {
        Some(String::from_str("application/vnd.rar"))
    } else if bytes_eq(eb, ".rtf".as_bytes()) {
        Some(String::from_str("application/rtf"))
    } else if bytes_eq(eb, ".svg".as_bytes()) {
        Some(String::from_str("image/svg+xml"))
    } else if bytes_eq(eb, ".tif".as_bytes()) {
        Some(String::from_str("image/tiff\t\t\t"))
    } else if bytes_eq(eb, ".ttf".as_bytes()) {
        Some(String::from_str("font/ttf"))
    } else if bytes_eq(eb, ".wav".as_bytes()) {
        Some(String::from_str("audio/wav"))
    } else if bytes_eq(eb, ".weba".as_bytes()) {
        Some(String::from_str("audio/webm"))
    } else if bytes_eq(eb, ".webm".as_bytes()) {
        Some(String::from_str("video/webm"))
    } else if bytes_eq(eb, ".webp".as_bytes()) {
        Some(String::from_str("image/webp"))
    } else if bytes_eq(eb, ".woff".as_bytes()) {
        Some(String::from_str("font/woff"))
    } else if bytes_eq(eb, ".woff2".as_bytes()) {
        Some(String::from_str("font/woff2"))
    } else if bytes_eq(eb, ".xhtml".as_bytes()) {
        Some(String::from_str("application/xhtml+xml"))
    } else if bytes_eq(eb, ".xml".as_bytes()) {
        Some(String::from_str("application/xml\t\t\t"))
    } else if bytes_eq(eb, ".zip".as_bytes()) {
        Some(String::from_str("application/zip"))
    } else if bytes_eq(eb, ".7z".as_bytes()) {
        Some(String::from_str("application/x-7z-compressed"))
    } else {
        None
    }
}

/// Default implementation for a simple file-system-based handler: serves the
/// files under the given root path for the request URIs that start with the
/// given prefix. The decisions — matching, MIME types, error pages — live
/// here; the caller walks the file system and owns the sockets.
#[derive(Debug)]
pub struct FileHandler {
    /// Whether to generate directory listings.
    pub list_dirs: bool,
    /// File names tried, in order, when a directory is requested.
    pub index: Vec<String>,
    /// The URI prefix this handler answers for.
    pub uri_prefix: String,
    /// The file-system path the URIs map into.
    pub root: String,
    /// Custom extension-to-MIME entries consulted after the built-in table.
    pub ext2mime: Vec<(String, String)>,
}

impl FileHandler {
    /// Returns a new file handler that serves files for the URIs that start
    /// with `uri_prefix`, relative to the given root path.
    pub fn new(uri_prefix: &str, root: &str) -> (r: FileHandler)
        ensures
            !r.list_dirs,
            r.index@.len() == 1 && r.index@[0]@ == "index.html"@,
            r.uri_prefix@ == uri_prefix@,
            r.root@ == root@,
            r.ext2mime@.len() == 0,
    {
        let mut index: Vec<String> = Vec::new();
        index.push(String::from_str("index.html"));
        FileHandler {
            uri_prefix: String::from_str(uri_prefix),
            root: String::from_str(root),
            list_dirs: false,
            index,
            ext2mime: Vec::new(),
        }
    }

    /// Whether this handler takes the request: its URI starts with the
    /// handler's prefix.
    pub fn matches(&self, req: &crate::request::Request) -> (r: bool)
        ensures
            r == spec_starts_with(req.uri@, self.uri_prefix@),
    {
        str_starts_with(req.uri.as_str(), self.uri_prefix.as_str())
    }

    /// The MIME type guessed from the extension of the given path: the
    /// extension is lower-cased and looked up in the built-in table, then in
    /// the handler's own entries, and falls back to
    /// `application/octet-stream`.
    #[verifier::rlimit(80)]
    pub fn mimetype_for_extension(&self, path: &str) -> (r: String)
        ensures
            r@ == spec_mime_for(self.ext2mime@, spec_lower_bytes(spec_extension(path.spec_bytes()))),
    {
        let eb = extension_bytes(path);
        let lowered = lower_bytes(&eb);
        match builtin_mime(lowered.as_slice()) {
            Some(m) => m,
            None => {
                let mut i: usize = 0;
                proof {
                    assert(self.ext2mime@.skip(0) =~= self.ext2mime@);
                }
                while i < self.ext2mime.len()
                    invariant
                        0 <= i <= self.ext2mime@.len(),
                        lowered@ == spec_lower_bytes(spec_extension(path.spec_bytes())),
                        spec_builtin_mime(lowered@) is None,
                        spec_custom_mime(self.ext2mime@, lowered@) == spec_custom_mime(
                            self.ext2mime@.skip(i as int),
                            lowered@,
                        ),
                    decreases self.ext2mime@.len() - i,
                {
                    let entry = &self.ext2mime[i];
                    proof {
                        assert(self.ext2mime@.skip(i as int)[0] == self.ext2mime@[i as int]);
                        assert(self.ext2mime@.skip(i as int).drop_first() =~= self.ext2mime@.skip(
                            i + 1,
                        ));
                    }
                    if bytes_eq(entry.0.as_str().as_bytes(), lowered.as_slice()) {
                        return entry.1.clone();
                    }
                    i = i + 1;
                }
                proof {
                    assert(self.ext2mime@.skip(self.ext2mime@.len() as int)
                        =~= Seq::<(String, String)>::empty());
                }
                String::from_str("application/octet-stream")
            },
        }
    }

    /// Writes a plain-text error page with the given status code and
    /// message and finalizes the response. Returns the bytes that must be
    /// written to the connection.
    pub fn serve_error(&self, res: &mut Response, code: u16, message: &str) -> (out: Vec<u8>)
        requires
            old(res).headers.wf(),
            !old(res).closed,
            !old(res).header_sent,
        ensures
            final(res).status_code == code,
            final(res).closed,
            final(res).headers.wf(),
            out@ == spec_head(
                code,
                spec_status_str(code),
                vm_set(
                    vm_set(
                        old(res).headers@,
                        spec_key(old(res).headers.spec_case_handling(), "Content-Type"@),
                        "text/plain"@,
                    ),
                    spec_key(old(res).headers.spec_case_handling(), "Content-Length"@),
                    spec_dec_digits(message.spec_bytes().len()),
                ),
            ) + message.spec_bytes(),
    {
        res.headers.set("Content-Type", "text/plain");
        res.status_code = code;
        res.status = crate::util::lookup_status_str(code);
        res.clear();
        let _ = res.ws(message);
        match res.end() {
            Ok(out) => out,
            Err(_) => Vec::new(),
        }
    }
}

/// A name with every double quote escaped by a backslash.
pub open spec fn spec_escape_quotes(s: Seq<char>) -> Seq<char>
    decreases s.len(),
{
    if s.len() == 0 {
        Seq::empty()
    } else if s[0] == '"' {
        seq!['\\', '"'] + spec_escape_quotes(s.drop_first())
    } else {
        seq![s[0]] + spec_escape_quotes(s.drop_first())
    }
}

/// One line of a directory index page: a link to the entry, with double
/// quotes in the link target escaped.
pub open spec fn spec_listing_entry(name: Seq<char>) -> Seq<char> {
    "<li><a href=\""@ + spec_escape_quotes(name) + "\">"@ + name + "</a></li>"@
}

/// Renders one entry of a directory index page.
pub fn listing_entry(name: &str) -> (r: String)
    ensures
        r@ == spec_listing_entry(name@),
{
    let n = name.unicode_len();
    let mut out = String::from_str("<li><a href=\"");
    let mut i: usize = 0;
    proof {
        assert(name@.skip(0) =~= name@);
    }
    while i < n
        invariant
            0 <= i <= n,
            n == name@.len(),
            out@ + spec_escape_quotes(name@.skip(i as int)) == "<li><a href=\""@
                + spec_escape_quotes(name@),
        decreases n - i,
    {
        let c = name.get_char(i);
        let ghost out0 = out@;
        proof {
            assert(name@.skip(i as int)[0] == c);
            assert(name@.skip(i as int).drop_first() =~= name@.skip(i + 1));
        }
        if c == '"' {
            crate::text::push_char(&mut out, '\\');
            crate::text::push_char(&mut out, '"');
        } else {
            crate::text::push_char(&mut out, c);
        }
        proof {
            assert(out@ + spec_escape_quotes(name@.skip(i + 1)) =~= out0 + spec_escape_quotes(
                name@.skip(i as int),
            ));
        }
        i = i + 1;
    }
    proof {
        assert(name@.skip(n as int) =~= Seq::<char>::empty());
        assert(out@ =~= "<li><a href=\""@ + spec_escape_quotes(name@));
    }
    out.append("\">");
    out.append(name);
    out.append("</a></li>");
    proof {
        assert(out@ =~= spec_listing_entry(name@));
    }
    out
}

/// Extracts the extension bytes of a path.
fn extension_bytes(path: &str) -> (r: Vec<u8>)
    ensures
        r@ == spec_extension(path.spec_bytes()),
{
    let u = path.as_bytes();
    let n = u.len();
    let mut k: usize = 0;
    let mut i: usize = 0;
    while i < n
        invariant
            0 <= k <= i <= n,
            n == u@.len(),
            forall|j: int| k <= j < i ==> u@[j] != SLASH,
            k == 0 || u@[k - 1] == SLASH,
        decreases n - i,
    {
        if u[i] == SLASH {
            k = i + 1;
        }
        i = i + 1;
    }
    proof {
        lemma_suffix_after(u@, SLASH, k as int);
    }
    let mut d: usize = k;
    let mut found = false;
    let mut i2: usize = k;
    while i2 < n
        invariant
            k <= i2 <= n,
            n == u@.len(),
            found ==> k <= d && d < i2 && u@[d as int] == DOT,
            forall|j: int| (if found { d + 1 } else { k as int }) <= j < i2 ==> u@[j] != DOT,
            !found ==> d == k,
        decreases n - i2,
    {
        if u[i2] == DOT {
            d = i2;
            found = true;
        }
        i2 = i2 + 1;
    }
    let ghost name = spec_suffix_after(u@, SLASH);
    proof {
        assert(name =~= u@.skip(k as int));
    }
    if !found {
        proof {
            lemma_suffix_after_shifted(u@, DOT, k as int, k as int);
            assert(spec_suffix_after(name, DOT) =~= name);
            assert(spec_extension(u@) =~= Seq::<u8>::empty());
        }
        return Vec::new();
    }
    proof {
        lemma_suffix_after_shifted(u@, DOT, k as int, d + 1);
        assert(spec_suffix_after(name, DOT) =~= u@.subrange(d + 1, n as int));
    }
    if d == k {
        proof {
            assert(spec_suffix_after(name, DOT).len() == name.len() - 1);
            assert(spec_extension(u@) =~= Seq::<u8>::empty());
        }
        return Vec::new();
    }
    proof {
        assert(spec_suffix_after(name, DOT).len() < name.len() - 1);
        assert(spec_extension(u@) =~= u@.subrange(d + 1, n as int));
    }
    crate::text::subvec(u, d + 1, n)
}

/// Lower-cases ASCII letters in a byte string.
fn lower_bytes(u: &Vec<u8>) -> (r: Vec<u8>)
    ensures
        r@ == spec_lower_bytes(u@),
{
    let mut out: Vec<u8> = Vec::new();
    let mut i: usize = 0;
    while i < u.len()
        invariant
            0 <= i <= u@.len(),
            out@ =~= spec_lower_bytes(u@).take(i as int),
        decreases u@.len() - i,
    {
        let b = u[i];
        out.push(if 65 <= b && b <= 90 { b + 32 } else { b });
        proof {
            assert(out@ =~= spec_lower_bytes(u@).take(i + 1));
        }
        i = i + 1;
    }
    proof {
        assert(out@ =~= spec_lower_bytes(u@));
    }
    out
}

/// When no `b` occurs at or after position `k` and position `k` sits right
/// after a `b` (or at the start), the suffix after the last `b` is exactly
/// `u` from `k` on.
proof fn lemma_suffix_after(u: Seq<u8>, b: u8, k: int)
    requires
        0 <= k <= u.len(),
        forall|j: int| k <= j < u.len() ==> u[j] != b,
        k == 0 || u[k - 1] == b,
    ensures
        spec_suffix_after(u, b) == u.skip(k),
    decreases u.len(),
{
    if u.len() == 0 {
        assert(spec_suffix_after(u, b) =~= u.skip(k));
    } else if u.last() == b {
        assert(k == u.len());
        assert(spec_suffix_after(u, b) =~= u.skip(k));
    } else {
        lemma_suffix_after(u.drop_last(), b, k);
        assert(spec_suffix_after(u, b) =~= u.skip(k)) by {
            assert(u.drop_last().skip(k).push(u.last()) =~= u.skip(k));
        }
    }
}

/// The suffix-after computation inside a tail of `u` seen as its own
/// sequence: with no `b` from `m` on and `m` right after a `b` inside the
/// tail (or at its start), the suffix is `u` from `m` on.
proof fn lemma_suffix_after_shifted(u: Seq<u8>, b: u8, k: int, m: int)
    requires
        0 <= k <= m <= u.len(),
        forall|j: int| m <= j < u.len() ==> u[j] != b,
        m == k || u[m - 1] == b,
    ensures
        spec_suffix_after(u.skip(k), b) == u.subrange(m, u.len() as int),
{
    let t = u.skip(k);
    assert(forall|j: int| m - k <= j < t.len() ==> t[j] != b);
    lemma_suffix_after(t, b, m - k);
    assert(t.skip(m - k) =~= u.subrange(m, u.len() as int));
}

} // verus!
