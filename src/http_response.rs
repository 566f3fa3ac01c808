//! HTTP/1.1 responses: a status line, an optional block of extra headers and a
//! body, written out as the bytes that go on the wire.
use vstd::prelude::*;
use vstd::utf8::encode_utf8;

verus! {

/// Carriage return and line feed.
pub open spec fn crlf() -> Seq<u8> {
    seq![13u8, 10u8]
}

/// The bytes of `HTTP/1.1 `.
pub open spec fn version_prefix() -> Seq<u8> {
    seq![72u8, 84u8, 84u8, 80u8, 47u8, 49u8, 46u8, 49u8, 32u8]
}

/// The bytes of `Content-Length: `.
pub open spec fn content_length_prefix() -> Seq<u8> {
    seq![
        67u8,
        111u8,
        110u8,
        116u8,
        101u8,
        110u8,
        116u8,
        45u8,
        76u8,
        101u8,
        110u8,
        103u8,
        116u8,
        104u8,
        58u8,
        32u8,
    ]
}

/// The decimal digits of `n`, as ASCII bytes.
pub open spec fn decimal(n: nat) -> Seq<u8>
    decreases n,
{
    if n < 10 {
        seq![(48 + n) as u8]
    } else {
        decimal(n / 10).push((48 + n % 10) as u8)
    }
}

/// The wire form of a response: status line, `Content-Length` of the body, the
/// extra headers when there are any, a blank line, and the body.
pub open spec fn response_bytes(status: Seq<u8>, headers: Seq<u8>, body: Seq<u8>) -> Seq<u8> {
    version_prefix() + status + crlf() + content_length_prefix() + decimal(body.len()) + crlf() + (
    if headers.len() > 0 {
        headers + crlf()
    } else {
        seq![]
    }) + crlf() + body
}

/// A response: status line (`<code> <reason>`), extra headers (none when empty)
/// and body.
pub struct HttpResponse {
    status_line: String,
    headers: String,
    contents: String,
}

/// The same response type under its shorter name.
pub type Response = HttpResponse;

impl View for HttpResponse {
    type V = (Seq<char>, Seq<char>, Seq<char>);

    closed spec fn view(&self) -> (Seq<char>, Seq<char>, Seq<char>) {
        (self.status_line@, self.headers@, self.contents@)
    }
}

/// The wire form of a response value.
pub open spec fn wire_of(v: (Seq<char>, Seq<char>, Seq<char>)) -> Seq<u8> {
    response_bytes(encode_utf8(v.0), encode_utf8(v.1), encode_utf8(v.2))
}

/// The decimal digits of `n`.
fn decimal_bytes(n: usize) -> (r: Vec<u8>)
    ensures
        r@ == decimal(n as nat),
    decreases n,
{
    if n < 10 {
        let mut v: Vec<u8> = Vec::new();
        v.push(48u8 + n as u8);
        assert(v@ =~= decimal(n as nat));
        v
    } else {
        let mut v = decimal_bytes(n / 10);
        v.push(48u8 + (n % 10) as u8);
        v
    }
}

/// Appends `b` to `out`.
fn push_bytes(out: &mut Vec<u8>, b: &[u8])
    ensures
        final(out)@ == old(out)@ + b@,
{
    let ghost start = out@;
    let mut i: usize = 0;
    while i < b.len()
        invariant
            i <= b@.len(),
            out@ == start + b@.take(i as int),
        decreases b@.len() - i,
    {
        out.push(b[i]);
        assert(start + b@.take(i + 1) =~= (start + b@.take(i as int)).push(b@[i as int]));
        i += 1;
    }
    assert(b@.take(i as int) =~= b@);
}

impl HttpResponse {
    /// A response with the given status line, extra headers and body.
    pub fn new(status_line: &str, headers: &str, contents: &str) -> (r: HttpResponse)
        ensures
            r@ == (status_line@, headers@, contents@),
    {
        HttpResponse {
            status_line: status_line.to_owned(),
            headers: headers.to_owned(),
            contents: contents.to_owned(),
        }
    }

    /// The status line.
    pub fn status_line(&self) -> (r: &str)
        ensures
            r@ == self@.0,
    {
        self.status_line.as_str()
    }

    /// The extra headers.
    pub fn headers(&self) -> (r: &str)
        ensures
            r@ == self@.1,
    {
        self.headers.as_str()
    }

    /// The body.
    pub fn contents(&self) -> (r: &str)
        ensures
            r@ == self@.2,
    {
        self.contents.as_str()
    }

    /// The bytes of this response on the wire.
    pub fn to_vec(&self) -> (r: Vec<u8>)
        ensures
            r@ == wire_of(self@),
    {
        let status = self.status_line.as_str().as_bytes();
        let headers = self.headers.as_str().as_bytes();
        let contents = self.contents.as_str().as_bytes();
        let mut out: Vec<u8> = vec![72u8, 84u8, 84u8, 80u8, 47u8, 49u8, 46u8, 49u8, 32u8];
        assert(out@ =~= version_prefix());
        push_bytes(&mut out, status);
        let crlf_bytes: Vec<u8> = vec![13u8, 10u8];
        assert(crlf_bytes@ =~= crlf());
        push_bytes(&mut out, crlf_bytes.as_slice());
        let cl: Vec<u8> = vec![
            67u8,
            111u8,
            110u8,
            116u8,
            101u8,
            110u8,
            116u8,
            45u8,
            76u8,
            101u8,
            110u8,
            103u8,
            116u8,
            104u8,
            58u8,
            32u8,
        ];
        assert(cl@ =~= content_length_prefix());
        push_bytes(&mut out, cl.as_slice());
        let length = decimal_bytes(contents.len());
        push_bytes(&mut out, length.as_slice());
        push_bytes(&mut out, crlf_bytes.as_slice());
        if headers.len() > 0 {
            push_bytes(&mut out, headers);
            push_bytes(&mut out, crlf_bytes.as_slice());
        }
        push_bytes(&mut out, crlf_bytes.as_slice());
        push_bytes(&mut out, contents);
        assert(out@ =~= wire_of(self@));
        out
    }

    /// The bytes of this response on the wire.
    pub fn into_bytes_vec(self) -> (r: Vec<u8>)
        ensures
            r@ == wire_of(self@),
    {
        self.to_vec()
    }

    /// The bytes of this response on the wire.
    pub fn into_http_response(self) -> (r: Vec<u8>)
        ensures
            r@ == wire_of(self@),
    {
        self.to_vec()
    }
}

/// No byte of `s` is a carriage return.
pub open spec fn lacks_cr(s: Seq<u8>) -> bool {
    forall|i: int| 0 <= i < s.len() ==> s[i] != 13u8
}

/// The blank-line separator `\r\n\r\n` starts at `p` in `t`.
pub open spec fn separator_at(t: Seq<u8>, p: int) -> bool {
    0 <= p && p + 4 <= t.len() && t[p] == 13u8 && t[p + 1] == 10u8 && t[p + 2] == 13u8 && t[p + 3]
        == 10u8
}

proof fn lemma_decimal_digits(n: nat)
    ensures
        decimal(n).len() >= 1,
        forall|i: int| 0 <= i < decimal(n).len() ==> 48 <= #[trigger] decimal(n)[i] <= 57,
    decreases n,
{
    if n >= 10 {
        lemma_decimal_digits(n / 10);
        assert forall|i: int| 0 <= i < decimal(n).len() implies 48 <= #[trigger] decimal(n)[i] <= 57 by {
            if i < decimal(n / 10).len() {
                assert(decimal(n)[i] == decimal(n / 10)[i]);
            }
        }
    }
}

/// `s` holds the blank-line separator somewhere.
pub open spec fn has_separator(s: Seq<u8>) -> bool {
    exists|i: int| separator_at(s, i)
}

/// `s` starts with a CRLF.
pub open spec fn starts_crlf(s: Seq<u8>) -> bool {
    s.len() >= 2 && s[0] == 13u8 && s[1] == 10u8
}

/// The wire form of a response starts with `HTTP/1.1 ` and holds exactly one
/// blank-line separator, after which comes the body, whose length the
/// `Content-Length` header declares. This needs a status line without carriage
/// returns; headers that hold no separator, start with no CRLF and end in no CR
/// or LF; and a body that holds no separator and starts with no CRLF.
pub proof fn lemma_wire_format(status: Seq<u8>, headers: Seq<u8>, body: Seq<u8>)
    requires
        lacks_cr(status),
        !has_separator(headers),
        !starts_crlf(headers),
        headers.len() > 0 ==> headers.last() != 13u8 && headers.last() != 10u8,
        !has_separator(body),
        !starts_crlf(body),
    ensures
        ({
            let t = response_bytes(status, headers, body);
            &&& t.take(9) == version_prefix()
            &&& exists|p: int|
                separator_at(t, p) && (forall|q: int| separator_at(t, q) ==> q == p) && t.skip(p + 4)
                    == body
        }),
{
    let t = response_bytes(status, headers, body);
    let d = decimal(body.len());
    lemma_decimal_digits(body.len());
    let a = version_prefix() + status + crlf() + content_length_prefix() + d;
    let h = if headers.len() > 0 {
        headers + crlf()
    } else {
        seq![]
    };
    assert(t =~= a + crlf() + h + crlf() + body);
    let a0: int = 9 + status.len() as int;
    let na = a.len() as int;
    let nh = headers.len() as int;
    assert(na == a0 + 2 + 16 + d.len());
    assert forall|i: int| 0 <= i < na && a[i] == 13u8 implies i == a0 by {
        if i < 9 {
            assert(a[i] == version_prefix()[i]);
        } else if i < a0 {
            assert(a[i] == status[i - 9]);
        } else if i == a0 + 1 {
            assert(a[i] == 10u8);
        } else if a0 + 2 <= i < a0 + 18 {
            assert(a[i] == content_length_prefix()[i - a0 - 2]);
        } else if i >= a0 + 18 {
            assert(a[i] == d[i - a0 - 18]);
        }
    }
    assert(a[a0 + 2] == 67u8);
    let p = na + h.len();
    assert(separator_at(t, p)) by {
        if headers.len() > 0 {
            assert(t[p] == 13u8 && t[p + 1] == 10u8);
        }
        assert(t[p + 2] == 13u8 && t[p + 3] == 10u8);
    }
    assert forall|q: int| separator_at(t, q) implies q == p by {
        if q < na {
            assert(t[q] == a[q]);
            assert(q == a0);
            assert(t[q + 2] == a[a0 + 2]);
        } else if q == na + 1 || q == p + 1 || q == p + 3 {
        } else if q == na && headers.len() > 0 {
            assert(t[q + 2] == headers[0]);
            if nh >= 2 {
                assert(t[q + 3] == headers[1]);
            } else {
                assert(t[q + 3] == 13u8);
            }
        } else if headers.len() > 0 && na + 2 <= q < na + 2 + nh {
            let k = q - na - 2;
            assert(t[q] == headers[k]);
            if k + 3 < nh {
                assert(t[q + 1] == headers[k + 1]);
                assert(t[q + 2] == headers[k + 2]);
                assert(t[q + 3] == headers[k + 3]);
                assert(separator_at(headers, k));
            } else if k + 1 == nh {
                assert(headers.last() == headers[k]);
            } else if k + 2 == nh {
                assert(t[q + 1] == headers[k + 1]);
                assert(headers.last() == headers[k + 1]);
            } else {
                assert(t[q + 2] == headers[k + 2]);
                assert(headers.last() == headers[k + 2]);
            }
        } else if q == p + 2 {
            assert(t[q + 2] == body[0]);
            assert(t[q + 3] == body[1]);
        } else if q >= p + 4 {
            let k = q - p - 4;
            assert(t[q] == body[k]);
            assert(t[q + 1] == body[k + 1]);
            assert(t[q + 2] == body[k + 2]);
            assert(t[q + 3] == body[k + 3]);
            assert(separator_at(body, k));
        }
    }
    assert(t.skip(p + 4) =~= body);
    assert(t.take(9) =~= version_prefix());
}

} // verus!
