//! The HTTP side of the web interface: status, content type and cache
//! header lines, the head of a response, where a request's head ends, its
//! declared body length, its resource, and the fields of a multipart form.

use vstd::prelude::*;
use vstd::string::StringSliceAdditionalSpecFns;
use crate::scan::{delimited, delimited_range, find, find_from, lemma_delimited, lemma_find_from, field, field_exec};
use crate::number::{is_digit, digits_value};

verus! {

/// The status of a response.
#[derive(Copy, Clone, PartialEq, Eq, Debug)]
pub enum StatusCode {
    Success,
    Error,
    NotFound,
}

/// The type of a response's content.
#[derive(Copy, Clone, PartialEq, Eq, Debug)]
pub enum ContentType {
    Plain,
    Html,
    Icon,
    Css,
    Javascript,
}

/// How long a response may be cached.
#[derive(Copy, Clone, PartialEq, Eq, Debug)]
pub enum CacheControl {
    Static,
    Dynamic,
}

impl StatusCode {
    /// The status line.
    pub open spec fn header_text(self) -> &'static str {
        match self {
            StatusCode::Success => "HTTP/1.1 200 OK\r\n",
            StatusCode::Error => "HTTP/1.1 500 Internal Server Error\r\n",
            StatusCode::NotFound => "HTTP/1.1 404 Not Found\r\n",
        }
    }

    /// The status line, as bytes.
    pub fn as_header(self) -> (r: &'static [u8])
        ensures
            r@ == self.header_text().spec_bytes(),
    {
        match self {
            StatusCode::Success => "HTTP/1.1 200 OK\r\n".as_bytes(),
            StatusCode::Error => "HTTP/1.1 500 Internal Server Error\r\n".as_bytes(),
            StatusCode::NotFound => "HTTP/1.1 404 Not Found\r\n".as_bytes(),
        }
    }
}

impl ContentType {
    /// The `Content-Type` header line.
    pub open spec fn header_text(self) -> &'static str {
        match self {
            ContentType::Plain => "Content-Type: text/plain; charset=utf-8\r\n",
            ContentType::Html => "Content-Type: text/html; charset=utf-8\r\n",
            ContentType::Icon => "Content-Type: image/x-icon\r\n",
            ContentType::Css => "Content-Type: text/css; charset=utf-8\r\n",
            ContentType::Javascript => "Content-Type: text/javascript; charset=utf-8\r\n",
        }
    }

    /// The `Content-Type` header line, as bytes.
    pub fn as_header(self) -> (r: &'static [u8])
        ensures
            r@ == self.header_text().spec_bytes(),
    {
        match self {
            ContentType::Plain => "Content-Type: text/plain; charset=utf-8\r\n".as_bytes(),
            ContentType::Html => "Content-Type: text/html; charset=utf-8\r\n".as_bytes(),
            ContentType::Icon => "Content-Type: image/x-icon\r\n".as_bytes(),
            ContentType::Css => "Content-Type: text/css; charset=utf-8\r\n".as_bytes(),
            ContentType::Javascript => "Content-Type: text/javascript; charset=utf-8\r\n".as_bytes(),
        }
    }
}

impl CacheControl {
    /// The `Cache-Control` header line.
    pub open spec fn header_text(self) -> &'static str {
        match self {
            CacheControl::Static => "Cache-Control: max-age=15552000, immutable\r\n",
            CacheControl::Dynamic => "Cache-Control: no-cache, no-store\r\n",
        }
    }

    /// The `Cache-Control` header line, as bytes.
    pub fn as_header(self) -> (r: &'static [u8])
        ensures
            r@ == self.header_text().spec_bytes(),
    {
        match self {
            CacheControl::Static => "Cache-Control: max-age=15552000, immutable\r\n".as_bytes(),
            CacheControl::Dynamic => "Cache-Control: no-cache, no-store\r\n".as_bytes(),
        }
    }
}

/// The head of a chunked response that closes the connection.
pub open spec fn spec_response_head(status: StatusCode, content: ContentType, cache: CacheControl) -> Seq<u8> {
    status.header_text().spec_bytes() + content.header_text().spec_bytes() + cache.header_text().spec_bytes()
        + "Transfer-Encoding: chunked\r\n".spec_bytes() + "Connection: close\r\n".spec_bytes() + "\r\n".spec_bytes()
}

fn append(buffer: &mut Vec<u8>, bytes: &[u8])
    ensures
        final(buffer)@ == old(buffer)@ + bytes@,
{
    let mut i: usize = 0;
    while i < bytes.len()
        invariant
            i <= bytes@.len(),
            buffer@ == old(buffer)@ + bytes@.subrange(0, i as int),
        decreases bytes@.len() - i,
    {
        buffer.push(bytes[i]);
        i = i + 1;
        proof {
            assert(bytes@.subrange(0, i as int) =~= bytes@.subrange(0, i - 1).push(bytes@[i - 1]));
        }
    }
    proof {
        assert(bytes@.subrange(0, bytes@.len() as int) =~= bytes@);
    }
}

/// The head that a response is sent with: the status line, the content
/// type and cache lines, chunked transfer, connection close, and the blank
/// line that ends the head.
pub fn response_head(status: StatusCode, content: ContentType, cache: CacheControl) -> (r: Vec<u8>)
    ensures
        r@ == spec_response_head(status, content, cache),
{
    let mut buffer: Vec<u8> = Vec::new();
    append(&mut buffer, status.as_header());
    append(&mut buffer, content.as_header());
    append(&mut buffer, cache.as_header());
    append(&mut buffer, "Transfer-Encoding: chunked\r\n".as_bytes());
    append(&mut buffer, "Connection: close\r\n".as_bytes());
    append(&mut buffer, "\r\n".as_bytes());
    buffer
}

/// The blank line that ends the head of a request.
pub open spec fn head_end_mark() -> Seq<u8> {
    "\r\n\r\n".spec_bytes()
}

/// Where the body of a request starts in `data`: just after its first blank
/// line, if it has one.
pub open spec fn spec_header_end(data: Seq<u8>) -> Option<int> {
    match find_from(data, head_end_mark(), 0) {
        Some(i) => Some(i + head_end_mark().len()),
        None => None,
    }
}

/// Where the body of a request starts in `data`, if its head is complete.
pub fn header_end(data: &[u8]) -> (r: Option<usize>)
    ensures
        r matches Some(i) ==> spec_header_end(data@) == Some(i as int) && i <= data@.len(),
        r is None ==> spec_header_end(data@) is None,
{
    let mark = "\r\n\r\n".as_bytes();
    let n = data.len();
    proof { lemma_find_from(data@, mark@, 0); }
    match find(data, mark, 0) {
        Some(i) => Some(i + mark.len()),
        None => None,
    }
}

/// A decimal number as `usize` parses it: an optional `+`, then at least
/// one digit and nothing else, and a value that fits.
pub open spec fn spec_parse_usize(s: Seq<u8>) -> Option<usize> {
    let d = unsigned_digits(s);
    if d.len() == 0 {
        None
    } else if !all_digits(d) {
        None
    } else if digits_value(d) > usize::MAX {
        None
    } else {
        Some(digits_value(d) as usize)
    }
}

/// What follows an optional leading `+`.
pub open spec fn unsigned_digits(s: Seq<u8>) -> Seq<u8> {
    if s.len() > 0 && s[0] == 43 {
        s.subrange(1, s.len() as int)
    } else {
        s
    }
}

/// Every byte of `s` is a digit.
pub open spec fn all_digits(s: Seq<u8>) -> bool {
    forall|i: int| 0 <= i < s.len() ==> is_digit(#[trigger] s[i])
}

/// Parses `s` as `usize` does.
pub fn parse_usize(s: &[u8]) -> (r: Option<usize>)
    ensures
        r == spec_parse_usize(s@),
{
    let n = s.len();
    let start: usize = if n > 0 && s[0] == 43 { 1 } else { 0 };
    let ghost d = unsigned_digits(s@);
    proof {
        assert(d =~= s@.subrange(start as int, n as int));
    }
    if start == n {
        return None;
    }
    let mut value: usize = 0;
    let mut i: usize = start;
    let mut overflow = false;
    while i < n
        invariant
            d == s@.subrange(start as int, n as int),
            d == unsigned_digits(s@),
            n == s@.len(),
            start <= i <= n,
            forall|j: int| start <= j < i ==> is_digit(#[trigger] s@[j]),
            !overflow ==> value as nat == digits_value(s@.subrange(start as int, i as int)),
            overflow ==> digits_value(s@.subrange(start as int, i as int)) > usize::MAX,
        decreases n - i,
    {
        let b = s[i];
        if !(48 <= b && b <= 57) {
            proof {
                assert(d[i - start] == s@[i as int]);
                assert(!is_digit(d[i - start]));
            }
            return None;
        }
        proof {
            assert(s@.subrange(start as int, i + 1).drop_last() =~= s@.subrange(start as int, i as int));
        }
        if !overflow {
            match value.checked_mul(10) {
                Some(m) => match m.checked_add((b - 48) as usize) {
                    Some(v) => { value = v; },
                    None => { overflow = true; },
                },
                None => { overflow = true; },
            }
        }
        i = i + 1;
    }
    proof {
        assert(s@.subrange(start as int, n as int) =~= d);
        assert forall|j: int| 0 <= j < d.len() implies is_digit(#[trigger] d[j]) by {
            assert(d[j] == s@[start + j]);
        }
    }
    if overflow {
        None
    } else {
        Some(value)
    }
}

/// The header that introduces a request's body length.
pub open spec fn length_open() -> Seq<u8> {
    "Content-Length: ".spec_bytes()
}

/// The end of a header line.
pub open spec fn line_end() -> Seq<u8> {
    "\r\n".spec_bytes()
}

/// The body length that a request's head declares: the value of its first
/// `Content-Length` header when it reads as a number, and 0 otherwise.
pub open spec fn spec_content_length(headers: Seq<u8>) -> usize {
    match field(headers, length_open(), line_end()) {
        Some(v) => match spec_parse_usize(v) {
            Some(n) => n,
            None => 0,
        },
        None => 0,
    }
}

/// The body length that a request's head declares.
pub fn content_length(headers: &[u8]) -> (r: usize)
    ensures
        r == spec_content_length(headers@),
{
    match field_exec(headers, "Content-Length: ".as_bytes(), "\r\n".as_bytes()) {
        Some(v) => match parse_usize(v) {
            Some(n) => n,
            None => 0,
        },
        None => 0,
    }
}

} // verus!

verus! {

/// A request as received: its head and its body.
pub struct Request {
    headers: Vec<u8>,
    body: Vec<u8>,
}

impl View for Request {
    type V = (Seq<u8>, Seq<u8>);

    closed spec fn view(&self) -> (Seq<u8>, Seq<u8>) {
        (self.headers@, self.body@)
    }
}

/// What comes before the first `byte` in `s`, or all of `s`.
pub open spec fn before(s: Seq<u8>, byte: u8) -> Seq<u8> {
    match find_from(s, seq![byte], 0) {
        Some(i) => s.subrange(0, i),
        None => s,
    }
}

/// The method and the path that a request's head names: its first word,
/// and its second word up to any `?`; an empty path when there is no
/// second word.
pub open spec fn spec_resource(headers: Seq<u8>) -> (Seq<u8>, Seq<u8>) {
    match find_from(headers, seq![32u8], 0) {
        None => (headers, Seq::empty()),
        Some(i) => {
            let rest = headers.subrange(i + 1, headers.len() as int);
            (headers.subrange(0, i), before(before(rest, 32), 63))
        },
    }
}

/// What comes before the first `byte` in `s`, or all of `s`.
fn before_exec<'a>(s: &'a [u8], byte: u8) -> (r: &'a [u8])
    ensures
        r@ == before(s@, byte),
{
    let needle = [byte];
    let n = s.len();
    proof {
        assert(needle@ =~= seq![byte]);
        lemma_find_from(s@, seq![byte], 0);
    }
    match find(s, &needle, 0) {
        Some(i) => &s[0..i],
        None => s,
    }
}

/// The delimiter line that introduces a form field's name.
pub open spec fn disposition_open() -> Seq<u8> {
    "Content-Disposition: form-data; name=\"".spec_bytes()
}

/// What ends a form field's name line.
pub open spec fn disposition_close() -> Seq<u8> {
    "\"\r\n".spec_bytes()
}

/// The header that names the boundary of a multipart form.
pub open spec fn boundary_open() -> Seq<u8> {
    "Content-Type: multipart/form-data; boundary=".spec_bytes()
}

/// What a form field's value ends with.
pub open spec fn value_end() -> Seq<u8> {
    "\r\n--".spec_bytes()
}

pub proof fn lemma_form_tags()
    ensures
        disposition_close().len() == 3,
        disposition_close() == seq![34u8, 13u8, 10u8],
        value_end().len() == 4,
        value_end() == seq![13u8, 10u8, 45u8, 45u8],
        line_end() == seq![13u8, 10u8],
{
    broadcast use vstd::string::is_ascii_spec_bytes;
    reveal_strlit("\"\r\n");
    reveal_strlit("\r\n--");
    reveal_strlit("\r\n");
    assert(vstd::string::is_ascii("\"\r\n"));
    assert(vstd::string::is_ascii("\r\n--"));
    assert(vstd::string::is_ascii("\r\n"));
    assert(disposition_close() =~= seq![34u8, 13u8, 10u8]);
    assert(value_end() =~= seq![13u8, 10u8, 45u8, 45u8]);
    assert(line_end() =~= seq![13u8, 10u8]);
}

/// The name and value of one part of a form: the name between the
/// disposition and the closing quote; then an empty line; then the value,
/// up to the `\r\n--` that ends the part.
pub open spec fn form_part(current: Seq<u8>) -> Option<(Seq<u8>, Seq<u8>)> {
    match delimited(current, disposition_open(), disposition_close()) {
        None => None,
        Some((a, b)) => {
            let after = current.subrange(b + 3, current.len() as int);
            if after.len() >= 2 && after[0] == 13 && after[1] == 10 {
                let v = after.subrange(2, after.len() as int);
                if v.len() >= 4 && v.subrange(v.len() - 4, v.len() as int) == value_end() {
                    Some((current.subrange(a, b), v.subrange(0, v.len() - 4)))
                } else {
                    None
                }
            } else {
                None
            }
        },
    }
}

/// The parts of a form body, read between boundaries one after the other
/// up to the first that is not well formed.
pub open spec fn form_parts(boundary: Seq<u8>, content: Seq<u8>) -> Seq<(Seq<u8>, Seq<u8>)>
    decreases content.len(),
{
    if boundary.len() == 0 {
        Seq::empty()
    } else {
        match delimited(content, boundary, boundary) {
            None => Seq::empty(),
            Some((s, e)) => {
                let rest = content.subrange(e, content.len() as int);
                match form_part(content.subrange(s, e)) {
                    None => Seq::empty(),
                    Some(kv) => {
                        if 0 <= e <= content.len() && rest.len() < content.len() {
                            seq![kv] + form_parts(boundary, rest)
                        } else {
                            Seq::empty()
                        }
                    },
                }
            },
        }
    }
}

/// The values, in order, of the parts named `name`.
pub open spec fn values_named(parts: Seq<(Seq<u8>, Seq<u8>)>, name: Seq<u8>) -> Seq<Seq<u8>>
    decreases parts.len(),
{
    if parts.len() == 0 {
        Seq::empty()
    } else {
        let rest = values_named(parts.drop_first(), name);
        if parts[0].0 == name {
            seq![parts[0].1] + rest
        } else {
            rest
        }
    }
}

/// The boundary that a request's head declares for its form, if any.
pub open spec fn spec_boundary(headers: Seq<u8>) -> Seq<u8> {
    match field(headers, boundary_open(), line_end()) {
        Some(b) => b,
        None => Seq::empty(),
    }
}

/// The name and value of one part of a form, as `form_part` says.
fn form_part_exec<'a>(current: &'a [u8]) -> (r: Option<(&'a [u8], &'a [u8])>)
    ensures
        r matches Some((k, v)) ==> form_part(current@) == Some((k@, v@)),
        r is None ==> form_part(current@) is None,
{
    let n = current.len();
    proof {
        lemma_form_tags();
        lemma_delimited(current@, disposition_open(), disposition_close());
    }
    let (a, b) = delimited_range(
        current,
        "Content-Disposition: form-data; name=\"".as_bytes(),
        "\"\r\n".as_bytes(),
    )?;
    let key = &current[a..b];
    let after = &current[b + 3..n];
    if after.len() < 2 || after[0] != 13 || after[1] != 10 {
        return None;
    }
    let v = &after[2..after.len()];
    let m = v.len();
    if m < 4 || v[m - 4] != 13 || v[m - 3] != 10 || v[m - 2] != 45 || v[m - 1] != 45 {
        proof {
            if m >= 4 && v@.subrange(m - 4, m as int) == value_end() {
                assert(v@.subrange(m - 4, m as int)[0] == v@[m - 4]);
                assert(v@.subrange(m - 4, m as int)[1] == v@[m - 3]);
                assert(v@.subrange(m - 4, m as int)[2] == v@[m - 2]);
                assert(v@.subrange(m - 4, m as int)[3] == v@[m - 1]);
            }
        }
        return None;
    }
    proof {
        assert(v@.subrange(m - 4, m as int) =~= value_end());
        assert(after@ =~= current@.subrange(b + 3, current@.len() as int));
    }
    Some((key, &v[0..m - 4]))
}

impl Request {
    /// A request with the given head and body.
    pub fn new(headers: Vec<u8>, body: Vec<u8>) -> (r: Self)
        ensures
            r@ == (headers@, body@),
    {
        Request { headers, body }
    }

    /// The method and path of the request.
    pub fn resource(&self) -> (r: (&[u8], &[u8]))
        ensures
            (r.0@, r.1@) == spec_resource(self@.0),
    {
        let headers = self.headers.as_slice();
        let n = headers.len();
        let space = [32u8];
        proof {
            assert(space@ =~= seq![32u8]);
            lemma_find_from(headers@, seq![32u8], 0);
        }
        match find(headers, &space, 0) {
            None => (headers, &headers[0..0]),
            Some(i) => {
                let rest = &headers[i + 1..n];
                let path = before_exec(before_exec(rest, 32), 63);
                proof {
                    assert(headers@.subrange(0, 0) =~= Seq::<u8>::empty());
                }
                (&headers[0..i], path)
            },
        }
    }

    /// The values, in order, of the form fields named `field` in the body.
    pub fn param<'p>(&'p self, field: &[u8]) -> (r: Vec<&'p [u8]>)
        ensures
            r@.map_values(|v: &[u8]| v@) == values_named(
                form_parts(spec_boundary(self@.0), self@.1),
                field@,
            ),
    {
        let boundary: &'p [u8] = match field_exec(
            self.headers.as_slice(),
            "Content-Type: multipart/form-data; boundary=".as_bytes(),
            "\r\n".as_bytes(),
        ) {
            Some(b) => b,
            None => &self.headers.as_slice()[0..0],
        };
        proof {
            assert(self.headers@.subrange(0, 0) =~= Seq::<u8>::empty());
        }
        let mut out: Vec<&'p [u8]> = Vec::new();
        if boundary.len() == 0 {
            proof {
                assert(out@.map_values(|v: &[u8]| v@) =~= Seq::<Seq<u8>>::empty());
            }
            return out;
        }
        let mut content: &'p [u8] = self.body.as_slice();
        loop
            invariant
                boundary@ == spec_boundary(self@.0),
                boundary@.len() > 0,
                values_named(form_parts(boundary@, self@.1), field@)
                    == out@.map_values(|v: &[u8]| v@) + values_named(form_parts(boundary@, content@), field@),
            decreases content@.len(),
        {
            let n = content.len();
            proof {
                lemma_delimited(content@, boundary@, boundary@);
            }
            let (s, e) = match delimited_range(content, boundary, boundary) {
                Some(range) => range,
                None => {
                    proof {
                        assert(out@.map_values(|v: &[u8]| v@) + Seq::<Seq<u8>>::empty()
                            =~= out@.map_values(|v: &[u8]| v@));
                    }
                    return out;
                },
            };
            let current = &content[s..e];
            let rest = &content[e..n];
            let (key, value) = match form_part_exec(current) {
                Some(kv) => kv,
                None => {
                    proof {
                        assert(out@.map_values(|v: &[u8]| v@) + Seq::<Seq<u8>>::empty()
                            =~= out@.map_values(|v: &[u8]| v@));
                    }
                    return out;
                },
            };
            let ghost prev = out@;
            let ghost parts = form_parts(boundary@, content@);
            proof {
                assert(parts == seq![(key@, value@)] + form_parts(boundary@, rest@));
                assert(parts.drop_first() =~= form_parts(boundary@, rest@));
            }
            if key.len() == field.len() && crate::rules::starts_with_exec(key, field) {
                out.push(value);
                proof {
                    assert(key@ =~= field@);
                    assert(out@.map_values(|v: &[u8]| v@) =~= prev.map_values(|v: &[u8]| v@).push(value@));
                    assert(values_named(parts, field@) == seq![value@] + values_named(form_parts(boundary@, rest@), field@));
                }
            } else {
                proof {
                    if key@ == field@ {
                        assert(key@.subrange(0, field@.len() as int) =~= key@);
                    }
                }
            }
            content = rest;
        }
    }
}

/// No byte of `s` is `b`.
pub open spec fn free_of(s: Seq<u8>, b: u8) -> bool {
    forall|j: int| 0 <= j < s.len() ==> #[trigger] s[j] != b
}

/// What comes before the first `b` in `s` begins `s` and holds no `b`.
proof fn lemma_before(s: Seq<u8>, b: u8)
    ensures
        before(s, b).len() <= s.len(),
        before(s, b) == s.subrange(0, before(s, b).len() as int),
        free_of(before(s, b), b),
        before(s, b).len() < s.len() ==> s[before(s, b).len() as int] == b,
{
    lemma_find_from(s, seq![b], 0);
    match find_from(s, seq![b], 0) {
        Some(i) => {
            assert(s[i + 0] == seq![b][0]);
            assert forall|j: int| 0 <= j < i implies #[trigger] before(s, b)[j] != b by {
                if s[j] == b {
                    assert(crate::scan::matches_at(s, seq![b], j));
                }
            }
        },
        None => {
            assert forall|j: int| 0 <= j < s.len() implies #[trigger] s[j] != b by {
                if s[j] == b {
                    assert(crate::scan::matches_at(s, seq![b], j));
                }
            }
            assert(s.subrange(0, s.len() as int) =~= s);
        },
    }
}

/// The method a request names holds no space, and its path holds neither
/// a space nor a `?`.
pub proof fn law_resource_words_are_whole(headers: Seq<u8>)
    ensures
        free_of(spec_resource(headers).0, 32),
        free_of(spec_resource(headers).1, 32),
        free_of(spec_resource(headers).1, 63),
{
    lemma_find_from(headers, seq![32u8], 0);
    match find_from(headers, seq![32u8], 0) {
        None => {
            assert forall|j: int| 0 <= j < headers.len() implies #[trigger] headers[j] != 32 by {
                if headers[j] == 32 {
                    assert(crate::scan::matches_at(headers, seq![32u8], j));
                }
            }
        },
        Some(i) => {
            let m = headers.subrange(0, i);
            assert forall|j: int| 0 <= j < m.len() implies #[trigger] m[j] != 32 by {
                if headers[j] == 32 {
                    assert(crate::scan::matches_at(headers, seq![32u8], j));
                }
            }
            let rest = headers.subrange(i + 1, headers.len() as int);
            let w = before(rest, 32);
            lemma_before(rest, 32);
            lemma_before(w, 63);
            let p = before(w, 63);
            assert forall|j: int| 0 <= j < p.len() implies #[trigger] p[j] != 32 by {
                assert(p[j] == w[j]);
            }
        },
    }
}

/// A head that starts with a method, a space, a path free of spaces and of
/// `?`, and then ends or goes on with a space or a `?` (a query) names that
/// method and that path, whatever follows. A head without a space is all
/// method, with an empty path.
pub proof fn law_resource_is_method_and_path(m: Seq<u8>, p: Seq<u8>, tail: Seq<u8>, headers: Seq<u8>)
    requires
        free_of(m, 32),
        free_of(p, 32),
        free_of(p, 63),
        tail.len() > 0 ==> tail[0] == 32 || tail[0] == 63,
    ensures
        spec_resource(m + seq![32u8] + p + tail) == (m, p),
        free_of(headers, 32) ==> spec_resource(headers) == (headers, Seq::<u8>::empty()),
{
    let h = m + seq![32u8] + p + tail;
    assert forall|j: int| 0 <= j < m.len() implies h[j] != 32 by {
        assert(h[j] == m[j]);
    }
    assert(h[m.len() as int] == 32);
    crate::scan::lemma_find_byte(h, 32, m.len() as int);
    assert(h.subrange(0, m.len() as int) =~= m);
    let rest = h.subrange(m.len() + 1int, h.len() as int);
    assert(rest =~= p + tail);
    lemma_before(rest, 32);
    let w = before(rest, 32);
    assert forall|j: int| 0 <= j < p.len() implies rest[j] != 32 by {
        assert(rest[j] == p[j]);
    }
    // the first space of `rest` is not inside `p`
    assert(w.len() >= p.len()) by {
        if w.len() < p.len() {
            assert(rest[w.len() as int] == 32);
        }
    }
    assert forall|j: int| 0 <= j < p.len() implies w[j] != 63 by {
        assert(w[j] == rest[j]);
        assert(rest[j] == p[j]);
    }
    if w.len() > p.len() {
        assert(w[p.len() as int] == rest[p.len() as int]);
        assert(rest[p.len() as int] == tail[0]);
        assert(w[p.len() as int] != 32);
    }
    crate::scan::lemma_find_byte(w, 63, p.len() as int);
    assert(w.subrange(0, p.len() as int) =~= p) by {
        assert forall|j: int| 0 <= j < p.len() implies w.subrange(0, p.len() as int)[j] == p[j] by {
            assert(w[j] == rest[j]);
        }
    }
    if free_of(headers, 32) {
        lemma_find_from(headers, seq![32u8], 0);
        if let Some(k) = find_from(headers, seq![32u8], 0) {
            assert(headers[k + 0] == seq![32u8][0]);
        }
    }
}

} // verus!
