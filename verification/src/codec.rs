//! Wire codec: turning raw request bytes into structured data and a
//! status/body pair back into HTTP/1.1 response bytes.

use vstd::prelude::*;
use vstd::slice::slice_subrange;
use vstd::slice::slice_to_vec;
use vstd::string::StringSliceAdditionalSpecFns;

verus! {

/// The views of a sequence of byte vectors.
pub open spec fn views_of(lines: Seq<Vec<u8>>) -> Seq<Seq<u8>> {
    Seq::new(lines.len(), |i: int| lines[i]@)
}

/// Everything of the response line and headers between the status text and
/// the decimal value of `Content-Length`.
pub const HEADER_BLOCK: &'static str = "\r\nAccess-Control-Allow-Origin: *\r\nAccess-Control-Allow-Methods: GET, POST, PUT, DELETE, OPTIONS\r\nAccess-Control-Allow-Headers: Content-Type\r\nContent-Type: application/json\r\nContent-Length: ";

/// The full preflight answer: status line, CORS headers, no body and no
/// `Content-Length`.
pub const OPTIONS_RESPONSE: &'static str = "HTTP/1.1 200 OK\r\nAccess-Control-Allow-Origin: *\r\nAccess-Control-Allow-Methods: GET, POST, PUT, DELETE, OPTIONS\r\nAccess-Control-Allow-Headers: Content-Type\r\nContent-Type: application/json\r\n\r\n";

/// The decimal digits of `n`, most significant first, as ASCII bytes.
pub open spec fn dec_digits(n: nat) -> Seq<u8>
    decreases n,
{
    if n < 10 {
        seq![(n + 48) as u8]
    } else {
        dec_digits(n / 10) + seq![((n % 10) + 48) as u8]
    }
}

/// Appends the decimal digits of `n` to `out`.
pub fn push_dec_u64(out: &mut Vec<u8>, n: u64)
    ensures
        final(out)@ == old(out)@ + dec_digits(n as nat),
    decreases n,
{
    if n < 10 {
        out.push((n as u8) + 48);
        assert(out@ =~= old(out)@ + dec_digits(n as nat));
    } else {
        push_dec_u64(out, n / 10);
        out.push(((n % 10) as u8) + 48);
        assert(out@ =~= old(out)@ + dec_digits(n as nat));
    }
}

/// Appends the UTF-8 bytes of `s` to `out`.
pub fn push_str_bytes(out: &mut Vec<u8>, s: &str)
    ensures
        final(out)@ == old(out)@ + s.spec_bytes(),
{
    out.extend_from_slice(s.as_bytes());
    assert(out@ =~= old(out)@ + s.spec_bytes());
}

/// Whether two byte slices hold the same bytes.
pub fn bytes_eq(a: &[u8], b: &[u8]) -> (r: bool)
    ensures
        r == (a@ == b@),
{
    if a.len() != b.len() {
        return false;
    }
    let mut i: usize = 0;
    while i < a.len()
        invariant
            i <= a@.len(),
            a@.len() == b@.len(),
            forall|j: int| 0 <= j < i ==> a@[j] == b@[j],
        decreases a@.len() - i,
    {
        if a[i] != b[i] {
            return false;
        }
        i = i + 1;
    }
    assert(a@ =~= b@);
    true
}

/// The serialized response for a status code, a status text and a body.
/// The `Content-Length` header always holds the exact byte length of the
/// body, and the body is the exact suffix after the blank line.
pub open spec fn spec_http_response(code: nat, status: Seq<char>, body: Seq<u8>) -> Seq<u8> {
    ("HTTP/1.1 ").spec_bytes() + dec_digits(code) + (" ").spec_bytes()
        + vstd::utf8::encode_utf8(status) + HEADER_BLOCK.spec_bytes() + dec_digits(body.len())
        + ("\r\n\r\n").spec_bytes() + body
}

/// Everything of a response before the blank line: the status line and the
/// headers, `Content-Length` holding the decimal rendering of `len`.
pub open spec fn spec_response_head(code: nat, status: Seq<char>, len: nat) -> Seq<u8> {
    ("HTTP/1.1 ").spec_bytes() + dec_digits(code) + (" ").spec_bytes()
        + vstd::utf8::encode_utf8(status) + HEADER_BLOCK.spec_bytes() + dec_digits(len)
}

/// Serializes an HTTP/1.1 response from a status code, a status text and a
/// JSON body.
pub fn http_response(status_code: u16, status: &str, body: &[u8]) -> (r: Vec<u8>)
    ensures
        r@ == spec_http_response(status_code as nat, status@, body@),
{
    let mut out: Vec<u8> = Vec::new();
    push_str_bytes(&mut out, "HTTP/1.1 ");
    push_dec_u64(&mut out, status_code as u64);
    push_str_bytes(&mut out, " ");
    push_str_bytes(&mut out, status);
    push_str_bytes(&mut out, HEADER_BLOCK);
    push_dec_u64(&mut out, body.len() as u64);
    push_str_bytes(&mut out, "\r\n\r\n");
    out.extend_from_slice(body);
    assert(out@ =~= spec_http_response(status_code as nat, status@, body@));
    out
}

/// Serializes the answer to a CORS preflight request.
pub fn options_response() -> (r: Vec<u8>)
    ensures
        r@ == OPTIONS_RESPONSE.spec_bytes(),
{
    let mut out: Vec<u8> = Vec::new();
    push_str_bytes(&mut out, OPTIONS_RESPONSE);
    assert(out@ =~= OPTIONS_RESPONSE.spec_bytes());
    out
}

/// Whether `b` is an ASCII whitespace byte; the request line is split into
/// tokens on these.
pub open spec fn is_ws(b: u8) -> bool {
    b == 32 || (9 <= b && b <= 13)
}

/// Whether `b` is an ASCII whitespace byte.
pub fn is_ws_byte(b: u8) -> (r: bool)
    ensures
        r == is_ws(b),
{
    b == 32 || (9 <= b && b <= 13)
}

/// Index of the first line feed in `s`, or `s.len()` when there is none.
pub open spec fn find_nl(s: Seq<u8>) -> nat
    decreases s.len(),
{
    if s.len() == 0 {
        0
    } else if s[0] == 10 {
        0
    } else {
        1 + find_nl(s.drop_first())
    }
}

proof fn lemma_find_nl(s: Seq<u8>)
    ensures
        find_nl(s) <= s.len(),
        find_nl(s) < s.len() ==> s[find_nl(s) as int] == 10,
        forall|k: int| 0 <= k < find_nl(s) ==> s[k] != 10,
    decreases s.len(),
{
    if s.len() == 0 {
    } else if s[0] == 10 {
    } else {
        lemma_find_nl(s.drop_first());
        assert forall|k: int| 0 <= k < find_nl(s) implies s[k] != 10 by {
            if k > 0 {
                assert(s.drop_first()[k - 1] != 10);
            }
        }
    }
}

/// `j` is where the first line feed stands (or the length when none): there
/// is no other value with that character.
proof fn lemma_find_nl_is(s: Seq<u8>, j: int)
    requires
        0 <= j <= s.len(),
        forall|k: int| 0 <= k < j ==> s[k] != 10,
        j < s.len() ==> s[j] == 10,
    ensures
        find_nl(s) == j,
{
    lemma_find_nl(s);
    if find_nl(s) < j {
        assert(s[find_nl(s) as int] != 10);
    } else if j < find_nl(s) {
        assert(s[j] != 10);
    }
}

/// One trailing carriage return removed, as the line splitter does before a
/// line feed.
pub open spec fn strip_cr(s: Seq<u8>) -> Seq<u8> {
    if s.len() > 0 && s[s.len() - 1] == 13 {
        s.drop_last()
    } else {
        s
    }
}

/// The buffer split into lines: segments between line feeds, each with one
/// carriage return stripped from its end; a final segment without a line
/// feed is kept as it stands, and a trailing line feed opens no empty line.
pub open spec fn spec_lines(s: Seq<u8>) -> Seq<Seq<u8>>
    decreases s.len(),
    via spec_lines_decreases
{
    if s.len() == 0 {
        Seq::empty()
    } else if find_nl(s) == s.len() {
        seq![s]
    } else {
        seq![strip_cr(s.take(find_nl(s) as int))] + spec_lines(s.skip(find_nl(s) as int + 1))
    }
}

#[via_fn]
proof fn spec_lines_decreases(s: Seq<u8>) {
    lemma_find_nl(s);
}

/// Splits a raw buffer into its lines.
pub fn split_lines(buffer: &[u8]) -> (r: Vec<Vec<u8>>)
    ensures
        views_of(r@) == spec_lines(buffer@),
{
    let n = buffer.len();
    let mut lines: Vec<Vec<u8>> = Vec::new();
    let mut start: usize = 0;
    proof {
        assert(views_of(lines@) =~= Seq::<Seq<u8>>::empty());
        assert(buffer@.skip(0) =~= buffer@);
        assert(views_of(lines@) + spec_lines(buffer@) =~= spec_lines(buffer@));
    }
    while start < n
        invariant
            start <= n,
            n == buffer@.len(),
            views_of(lines@) + spec_lines(buffer@.skip(start as int)) =~= spec_lines(buffer@),
        decreases n - start,
    {
        let ghost rest = buffer@.skip(start as int);
        let mut j: usize = start;
        while j < n && buffer[j] != 10
            invariant
                start <= j <= n,
                n == buffer@.len(),
                forall|k: int| start <= k < j ==> buffer@[k] != 10,
            decreases n - j,
        {
            j = j + 1;
        }
        proof {
            assert forall|k: int| 0 <= k < j - start implies rest[k] != 10 by {
                assert(rest[k] == buffer@[start + k]);
            }
            if j < n {
                assert(rest[j - start] == buffer@[j as int]);
            }
            lemma_find_nl_is(rest, j - start);
        }
        if j == n {
            proof {
                assert(spec_lines(rest) =~= seq![rest]);
            }
            let line = slice_to_vec(slice_subrange(buffer, start, n));
            proof {
                assert(line@ =~= rest);
            }
            let ghost lines0 = lines@;
            lines.push(line);
            proof {
                assert(views_of(lines@) =~= views_of(lines0).push(rest));
            }
            start = n;
            proof {
                assert(spec_lines(buffer@.skip(n as int)) =~= Seq::<Seq<u8>>::empty());
                assert(views_of(lines@) + spec_lines(buffer@.skip(start as int)) =~= spec_lines(
                    buffer@,
                ));
            }
        } else {
            let line = if j > start && buffer[j - 1] == 13 {
                slice_to_vec(slice_subrange(buffer, start, j - 1))
            } else {
                slice_to_vec(slice_subrange(buffer, start, j))
            };
            proof {
                let f = find_nl(rest) as int;
                assert(rest.take(f) =~= buffer@.subrange(start as int, j as int));
                if j > start && buffer@[j - 1] == 13 {
                    assert(line@ =~= rest.take(f).drop_last());
                    assert(line@ =~= strip_cr(rest.take(f)));
                } else {
                    assert(line@ =~= strip_cr(rest.take(f)));
                }
                assert(rest.skip(f + 1) =~= buffer@.skip(j + 1));
                assert(spec_lines(rest) == seq![strip_cr(rest.take(f))] + spec_lines(
                    rest.skip(f + 1),
                ));
            }
            let ghost lines0 = lines@;
            lines.push(line);
            proof {
                assert(views_of(lines@) =~= views_of(lines0).push(line@));
                assert(views_of(lines0).push(line@) + spec_lines(buffer@.skip(j + 1)) =~= views_of(
                    lines0,
                ) + spec_lines(rest));
            }
            j = j + 1;
            start = j;
        }
    }
    proof {
        assert(buffer@.skip(start as int) =~= Seq::<u8>::empty());
        assert(spec_lines(buffer@.skip(start as int)) =~= Seq::<Seq<u8>>::empty());
        assert(views_of(lines@) =~= spec_lines(buffer@));
    }
    lines
}

/// Index of the first whitespace byte in `s`, or `s.len()` when there is
/// none.
pub open spec fn find_ws(s: Seq<u8>) -> nat
    decreases s.len(),
{
    if s.len() == 0 {
        0
    } else if is_ws(s[0]) {
        0
    } else {
        1 + find_ws(s.drop_first())
    }
}

proof fn lemma_find_ws(s: Seq<u8>)
    ensures
        find_ws(s) <= s.len(),
        find_ws(s) < s.len() ==> is_ws(s[find_ws(s) as int]),
        forall|k: int| 0 <= k < find_ws(s) ==> !is_ws(s[k]),
    decreases s.len(),
{
    if s.len() == 0 {
    } else if is_ws(s[0]) {
    } else {
        lemma_find_ws(s.drop_first());
        assert forall|k: int| 0 <= k < find_ws(s) implies !is_ws(s[k]) by {
            if k > 0 {
                assert(!is_ws(s.drop_first()[k - 1]));
            }
        }
    }
}

proof fn lemma_find_ws_is(s: Seq<u8>, j: int)
    requires
        0 <= j <= s.len(),
        forall|k: int| 0 <= k < j ==> !is_ws(s[k]),
        j < s.len() ==> is_ws(s[j]),
    ensures
        find_ws(s) == j,
{
    lemma_find_ws(s);
    if find_ws(s) < j {
        assert(!is_ws(s[find_ws(s) as int]));
    } else if j < find_ws(s) {
        assert(!is_ws(s[j]));
    }
}

/// The whitespace-separated tokens of `s`, in order; whitespace runs of any
/// length separate them and none stands at either end of a token.
pub open spec fn spec_tokens(s: Seq<u8>) -> Seq<Seq<u8>>
    decreases s.len(),
    via spec_tokens_decreases
{
    if s.len() == 0 {
        Seq::empty()
    } else if is_ws(s[0]) {
        spec_tokens(s.drop_first())
    } else if find_ws(s) == s.len() {
        seq![s]
    } else {
        seq![s.take(find_ws(s) as int)] + spec_tokens(s.skip(find_ws(s) as int))
    }
}

#[via_fn]
proof fn spec_tokens_decreases(s: Seq<u8>) {
    lemma_find_ws(s);
}

/// Splits a request line into its whitespace-separated tokens.
pub fn split_tokens(line: &[u8]) -> (r: Vec<Vec<u8>>)
    ensures
        views_of(r@) == spec_tokens(line@),
{
    let n = line.len();
    let mut tokens: Vec<Vec<u8>> = Vec::new();
    let mut i: usize = 0;
    proof {
        assert(views_of(tokens@) =~= Seq::<Seq<u8>>::empty());
        assert(line@.skip(0) =~= line@);
        assert(views_of(tokens@) + spec_tokens(line@) =~= spec_tokens(line@));
    }
    while i < n
        invariant
            i <= n,
            n == line@.len(),
            views_of(tokens@) + spec_tokens(line@.skip(i as int)) =~= spec_tokens(line@),
        decreases n - i,
    {
        let ghost rest = line@.skip(i as int);
        if is_ws_byte(line[i]) {
            proof {
                assert(rest.drop_first() =~= line@.skip(i + 1));
            }
            i = i + 1;
        } else {
            let mut j: usize = i;
            while j < n && !is_ws_byte(line[j])
                invariant
                    i <= j <= n,
                    n == line@.len(),
                    forall|k: int| i <= k < j ==> !is_ws(line@[k]),
                decreases n - j,
            {
                j = j + 1;
            }
            proof {
                assert forall|k: int| 0 <= k < j - i implies !is_ws(rest[k]) by {
                    assert(rest[k] == line@[i + k]);
                }
                if j < n {
                    assert(rest[j - i] == line@[j as int]);
                }
                lemma_find_ws_is(rest, j - i);
            }
            let token = slice_to_vec(slice_subrange(line, i, j));
            let ghost tokens0 = tokens@;
            if j == n {
                proof {
                    assert(token@ =~= rest);
                    assert(spec_tokens(rest) =~= seq![rest]);
                }
                tokens.push(token);
                proof {
                    assert(views_of(tokens@) =~= views_of(tokens0).push(rest));
                    assert(line@.skip(n as int) =~= Seq::<u8>::empty());
                    assert(views_of(tokens@) + spec_tokens(line@.skip(n as int)) =~= spec_tokens(
                        line@,
                    ));
                }
                i = n;
            } else {
                proof {
                    let f = find_ws(rest) as int;
                    assert(token@ =~= rest.take(f));
                    assert(rest.skip(f) =~= line@.skip(j as int));
                    assert(spec_tokens(rest) == seq![rest.take(f)] + spec_tokens(rest.skip(f)));
                }
                tokens.push(token);
                proof {
                    assert(views_of(tokens@) =~= views_of(tokens0).push(token@));
                    assert(views_of(tokens0).push(token@) + spec_tokens(line@.skip(j as int))
                        =~= views_of(tokens0) + spec_tokens(rest));
                }
                i = j;
            }
        }
    }
    proof {
        assert(line@.skip(n as int) =~= Seq::<u8>::empty());
        assert(spec_tokens(line@.skip(n as int)) =~= Seq::<Seq<u8>>::empty());
        assert(views_of(tokens@) =~= spec_tokens(line@));
    }
    tokens
}

/// The body of a request, as the received lines carry it: the last line
/// whenever some blank line marks the end of the headers, empty otherwise.
pub open spec fn spec_extract_body(lines: Seq<Seq<u8>>) -> Seq<u8> {
    if exists|i: int| 0 <= i < lines.len() && lines[i].len() == 0 {
        lines[lines.len() - 1]
    } else {
        Seq::empty()
    }
}

/// Extracts the body from the request's lines.
pub fn extract_body(request: &Vec<Vec<u8>>) -> (r: Vec<u8>)
    ensures
        r@ == spec_extract_body(views_of(request@)),
{
    let ghost lv = views_of(request@);
    let n = request.len();
    let mut has_blank = false;
    let mut i: usize = 0;
    while i < n
        invariant
            i <= n,
            n == request@.len(),
            lv == views_of(request@),
            has_blank == exists|k: int| 0 <= k < i && lv[k].len() == 0,
        decreases n - i,
    {
        if request[i].len() == 0 {
            proof {
                assert(lv[i as int].len() == 0);
            }
            has_blank = true;
        }
        i = i + 1;
    }
    if has_blank {
        let r = slice_to_vec(request[n - 1].as_slice());
        proof {
            assert(r@ =~= lv[lv.len() - 1]);
        }
        r
    } else {
        Vec::new()
    }
}

/// A request's method, as the router tells them apart.
#[derive(Clone, Copy, Debug, PartialEq, Eq, Structural)]
pub enum Method {
    Get,
    Post,
    Put,
    Delete,
    Options,
    Other,
}

/// The method a request-line token names.
pub open spec fn spec_method_of(token: Seq<u8>) -> Method {
    if token == ("GET").spec_bytes() {
        Method::Get
    } else if token == ("POST").spec_bytes() {
        Method::Post
    } else if token == ("PUT").spec_bytes() {
        Method::Put
    } else if token == ("DELETE").spec_bytes() {
        Method::Delete
    } else if token == ("OPTIONS").spec_bytes() {
        Method::Options
    } else {
        Method::Other
    }
}

/// Reads the method out of the first request-line token.
pub fn method_of(token: &[u8]) -> (r: Method)
    ensures
        r == spec_method_of(token@),
{
    if bytes_eq(token, ("GET").as_bytes()) {
        Method::Get
    } else if bytes_eq(token, ("POST").as_bytes()) {
        Method::Post
    } else if bytes_eq(token, ("PUT").as_bytes()) {
        Method::Put
    } else if bytes_eq(token, ("DELETE").as_bytes()) {
        Method::Delete
    } else if bytes_eq(token, ("OPTIONS").as_bytes()) {
        Method::Options
    } else {
        Method::Other
    }
}

/// A request once parsed: its method, its path and its raw body bytes.
pub struct ParsedRequest {
    pub method: Method,
    pub path: Vec<u8>,
    pub body: Vec<u8>,
}

/// Why a buffer was rejected by the parser.
#[derive(Clone, Copy, Debug, PartialEq, Eq, Structural)]
pub enum ParseError {
    MalformedRequestLine,
}

/// Whether the buffer's first line carries at least a method and a path.
pub open spec fn spec_parse_ok(buffer: Seq<u8>) -> bool {
    spec_lines(buffer).len() > 0 && spec_tokens(spec_lines(buffer)[0]).len() >= 2
}

/// The method of a parseable buffer.
pub open spec fn spec_method(buffer: Seq<u8>) -> Method {
    spec_method_of(spec_tokens(spec_lines(buffer)[0])[0])
}

/// The path of a parseable buffer.
pub open spec fn spec_path(buffer: Seq<u8>) -> Seq<u8> {
    spec_tokens(spec_lines(buffer)[0])[1]
}

/// The body of a buffer.
pub open spec fn spec_body(buffer: Seq<u8>) -> Seq<u8> {
    spec_extract_body(spec_lines(buffer))
}

/// The bytes of ` HTTP/1.1\r\n\r\n`: the version token and the blank line
/// that a well-formed request carries between its request line and body.
pub open spec fn spec_version_and_blank() -> Seq<u8> {
    seq![32u8, 72u8, 84u8, 84u8, 80u8, 47u8, 49u8, 46u8, 49u8, 13u8, 10u8, 13u8, 10u8]
}

/// A serialized request: the method, a space, the path, then ` HTTP/1.1`,
/// the blank line, and the body.
pub open spec fn spec_serialized_request(m: Seq<u8>, p: Seq<u8>, body: Seq<u8>) -> Seq<u8> {
    m + seq![32u8] + p + spec_version_and_blank() + body
}

proof fn lemma_tokens_skip_ws(s: Seq<u8>)
    requires
        s.len() > 0,
        is_ws(s[0]),
    ensures
        spec_tokens(s) == spec_tokens(s.drop_first()),
{
}

proof fn lemma_tokens_prefix(s: Seq<u8>, k: int)
    requires
        1 <= k <= s.len(),
        forall|j: int| 0 <= j < k ==> !is_ws(s[j]),
        k < s.len() ==> is_ws(s[k]),
    ensures
        spec_tokens(s) == if k == s.len() {
            seq![s]
        } else {
            seq![s.take(k)] + spec_tokens(s.skip(k))
        },
{
    lemma_find_ws_is(s, k);
}

/// The request line of a serialized request, before its carriage return.
pub open spec fn spec_request_line(m: Seq<u8>, p: Seq<u8>) -> Seq<u8> {
    m + seq![32u8] + p + seq![32u8, 72u8, 84u8, 84u8, 80u8, 47u8, 49u8, 46u8, 49u8]
}

/// The lines of a serialized request: its request line, the blank line,
/// and its body when there is one.
proof fn lemma_lines_of_serialized(m: Seq<u8>, p: Seq<u8>, body: Seq<u8>)
    requires
        m.len() > 0,
        p.len() > 0,
        forall|k: int| 0 <= k < m.len() ==> !is_ws(m[k]),
        forall|k: int| 0 <= k < p.len() ==> !is_ws(p[k]),
        forall|k: int| 0 <= k < body.len() ==> body[k] != 10,
    ensures
        spec_lines(spec_serialized_request(m, p, body)) == if body.len() > 0 {
            seq![spec_request_line(m, p), Seq::<u8>::empty(), body]
        } else {
            seq![spec_request_line(m, p), Seq::<u8>::empty()]
        },
{
    let ver = seq![32u8, 72u8, 84u8, 84u8, 80u8, 47u8, 49u8, 46u8, 49u8];
    let first = spec_request_line(m, p);
    let tail = seq![13u8, 10u8, 13u8, 10u8];
    let s = spec_serialized_request(m, p, body);
    assert(s =~= first + tail + body);

    // The first line feed closes the request line.
    let j1 = first.len() as int + 1;
    assert forall|k: int| 0 <= k < j1 implies s[k] != 10 by {
        if k < m.len() {
            assert(s[k] == m[k]);
        } else if k == m.len() {
            assert(s[k] == 32);
        } else if k < m.len() + 1 + p.len() {
            assert(s[k] == p[k - m.len() - 1]);
        } else if k < first.len() {
            assert(s[k] == ver[k - m.len() - 1 - p.len()]);
        } else {
            assert(s[k] == 13);
        }
    }
    assert(s[j1] == 10);
    lemma_find_nl_is(s, j1);
    assert(spec_lines(s) == seq![strip_cr(s.take(j1))] + spec_lines(s.skip(j1 + 1)));
    assert(s.take(j1) =~= first + seq![13u8]);
    assert(strip_cr(s.take(j1)) =~= first);

    // What follows is the blank line, then the body.
    let rest = s.skip(j1 + 1);
    assert(rest =~= seq![13u8, 10u8] + body);
    assert(rest[0] == 13 && rest[1] == 10);
    lemma_find_nl_is(rest, 1);
    assert(spec_lines(rest) == seq![strip_cr(rest.take(1))] + spec_lines(rest.skip(2)));
    assert(rest.take(1) =~= seq![13u8]);
    assert(strip_cr(rest.take(1)) =~= Seq::<u8>::empty());
    assert(rest.skip(2) =~= body);
    if body.len() > 0 {
        lemma_find_nl_is(body, body.len() as int);
        assert(spec_lines(body) =~= seq![body]);
        assert(spec_lines(s) =~= seq![first, Seq::<u8>::empty(), body]);
    } else {
        assert(spec_lines(s) =~= seq![first, Seq::<u8>::empty()]);
    }

}

/// The tokens of a request line: the method, the path, and `HTTP/1.1`.
proof fn lemma_tokens_of_request_line(m: Seq<u8>, p: Seq<u8>)
    requires
        m.len() > 0,
        p.len() > 0,
        forall|k: int| 0 <= k < m.len() ==> !is_ws(m[k]),
        forall|k: int| 0 <= k < p.len() ==> !is_ws(p[k]),
    ensures
        spec_tokens(spec_request_line(m, p)) == seq![
            m,
            p,
            seq![72u8, 84u8, 84u8, 80u8, 47u8, 49u8, 46u8, 49u8],
        ],
{
    let ver = seq![32u8, 72u8, 84u8, 84u8, 80u8, 47u8, 49u8, 46u8, 49u8];
    let first = spec_request_line(m, p);
    assert forall|j: int| 0 <= j < m.len() implies !is_ws(first[j]) by {
        assert(first[j] == m[j]);
    }
    assert(first[m.len() as int] == 32);
    lemma_tokens_prefix(first, m.len() as int);
    assert(first.take(m.len() as int) =~= m);
    let s2 = first.skip(m.len() as int);
    assert(s2 =~= seq![32u8] + p + ver);
    lemma_tokens_skip_ws(s2);
    let s3 = s2.drop_first();
    assert(s3 =~= p + ver);
    assert forall|j: int| 0 <= j < p.len() implies !is_ws(s3[j]) by {
        assert(s3[j] == p[j]);
    }
    assert(s3[p.len() as int] == 32);
    lemma_tokens_prefix(s3, p.len() as int);
    assert(s3.take(p.len() as int) =~= p);
    let s4 = s3.skip(p.len() as int);
    assert(s4 =~= ver);
    lemma_tokens_skip_ws(s4);
    let s5 = s4.drop_first();
    assert(s5 =~= seq![72u8, 84u8, 84u8, 80u8, 47u8, 49u8, 46u8, 49u8]);
    assert forall|j: int| 0 <= j < s5.len() implies !is_ws(s5[j]) by {
    }
    lemma_tokens_prefix(s5, s5.len() as int);
    assert(spec_tokens(s5) == seq![s5]);
    assert(spec_tokens(first) =~= seq![m, p, s5]);
}

/// Parsing inverts serialization. For any method and path tokens free of
/// whitespace and any body free of line feeds, parsing the serialized
/// request succeeds and hands back exactly that method, that path and that
/// body.
pub proof fn lemma_parse_of_serialized_request(m: Seq<u8>, p: Seq<u8>, body: Seq<u8>)
    requires
        m.len() > 0,
        p.len() > 0,
        forall|k: int| 0 <= k < m.len() ==> !is_ws(m[k]),
        forall|k: int| 0 <= k < p.len() ==> !is_ws(p[k]),
        forall|k: int| 0 <= k < body.len() ==> body[k] != 10,
    ensures
        spec_parse_ok(spec_serialized_request(m, p, body)),
        spec_method(spec_serialized_request(m, p, body)) == spec_method_of(m),
        spec_path(spec_serialized_request(m, p, body)) == p,
        spec_body(spec_serialized_request(m, p, body)) == body,
{
    let s = spec_serialized_request(m, p, body);
    let first = spec_request_line(m, p);
    lemma_lines_of_serialized(m, p, body);
    lemma_tokens_of_request_line(m, p);
    let lines = spec_lines(s);
    assert(lines[0] == first);
    assert(spec_parse_ok(s));
    assert(spec_tokens(lines[0])[0] == m);
    assert(spec_tokens(lines[0])[1] == p);
    assert(lines[1].len() == 0);
    assert(spec_extract_body(lines) == lines[lines.len() - 1]);
    if body.len() > 0 {
        assert(lines[lines.len() - 1] == body);
    } else {
        assert(lines[lines.len() - 1] =~= body);
    }
}

/// Parses a raw buffer into a request. The buffer is rejected exactly when
/// its first line holds fewer than two whitespace-separated tokens (the
/// method and the path; any further token, such as the HTTP version, is
/// ignored).
pub fn parse_request(buffer: &[u8]) -> (r: Result<ParsedRequest, ParseError>)
    ensures
        match r {
            Ok(p) => spec_parse_ok(buffer@) && p.method == spec_method(buffer@) && p.path@
                == spec_path(buffer@) && p.body@ == spec_body(buffer@),
            Err(e) => !spec_parse_ok(buffer@) && e == ParseError::MalformedRequestLine,
        },
{
    let lines = split_lines(buffer);
    if lines.len() == 0 {
        return Err(ParseError::MalformedRequestLine);
    }
    let tokens = split_tokens(lines[0].as_slice());
    proof {
        assert(views_of(lines@)[0] == lines@[0]@);
    }
    if tokens.len() < 2 {
        return Err(ParseError::MalformedRequestLine);
    }
    let method = method_of(tokens[0].as_slice());
    let path = slice_to_vec(tokens[1].as_slice());
    let body = extract_body(&lines);
    proof {
        assert(views_of(tokens@)[0] == tokens@[0]@);
        assert(views_of(tokens@)[1] == tokens@[1]@);
    }
    Ok(ParsedRequest { method, path, body })
}

} // verus!
