//! The HTTP/1.1 request head: request line, headers and query parameters, read
//! from the bytes a client sent.
use vstd::prelude::*;
use vstd::utf8::{decode_utf8, valid_utf8};
use crate::mime_type::params_view;
use crate::npm_expansion_error::{NpmErrorKind, NpmExpansionsError};
use crate::text::{
    byte_line_ranges, chars_of, cut, lines_with, pieces, push_all, ranges_within, split,
    split_once, split_pieces, string_of, string_of_all, sub_vec, trim, trim_range, utf8_string,
};

verus! {

/// The most bytes read for the request line and headers together.
pub const HEADER_SIZE_LIMIT: usize = 8000;

/// The bytes of a request that are read: at most the size limit.
pub open spec fn head_of(b: Seq<u8>) -> Seq<u8> {
    if b.len() > HEADER_SIZE_LIMIT {
        b.take(HEADER_SIZE_LIMIT as int)
    } else {
        b
    }
}

/// The lines of the bytes that are read.
pub open spec fn head_lines(b: Seq<u8>) -> Seq<Seq<u8>> {
    lines_with(head_of(b), 10u8, 13u8)
}

/// The lines that may hold headers: those after the request line. When the size
/// limit cut the head in the middle of a line, that unfinished line is left out,
/// so that running out of lines reports the cap.
pub open spec fn header_lines(b: Seq<u8>) -> Seq<Seq<u8>> {
    let ls = head_lines(b);
    let h = head_of(b);
    if b.len() >= HEADER_SIZE_LIMIT && h.len() > 0 && h.last() != 10u8 && ls.len() > 1 {
        ls.drop_first().drop_last()
    } else {
        ls.drop_first()
    }
}

/// A list of key/value pairs as plain values.
pub type PairsView = Seq<(Seq<char>, Seq<char>)>;

/// `acc` in front of a result that may have failed.
pub open spec fn prepend(acc: PairsView, r: Result<PairsView, NpmErrorKind>) -> Result<
    PairsView,
    NpmErrorKind,
> {
    match r {
        Ok(rest) => Ok(acc + rest),
        Err(e) => Err(e),
    }
}

/// The headers written on `ls` up to the blank line: each `Name:Value`, cut at
/// the first `:` and trimmed. Running out of lines fails: as too many headers
/// when the size limit was reached, else as a malformed request.
pub open spec fn spec_headers(ls: Seq<Seq<u8>>, capped: bool) -> Result<PairsView, NpmErrorKind>
    decreases ls.len(),
{
    if ls.len() == 0 {
        if capped {
            Err(NpmErrorKind::TooManyRequestHeaders)
        } else {
            Err(NpmErrorKind::InvalidHttpRequest)
        }
    } else if !valid_utf8(ls[0]) {
        Err(NpmErrorKind::InvalidHttpRequest)
    } else {
        let d = decode_utf8(ls[0]);
        if d.len() == 0 {
            Ok(seq![])
        } else {
            match split_once(d, ':') {
                Some(kv) => prepend(seq![(trim(kv.0), trim(kv.1))], spec_headers(ls.drop_first(), capped)),
                None => Err(NpmErrorKind::InvalidRequestHeaders),
            }
        }
    }
}

/// The pairs of a query string's `&`-separated segments: empty segments are
/// skipped, every other must hold a `=`.
pub open spec fn spec_query_pairs(segs: Seq<Seq<char>>) -> Result<PairsView, NpmErrorKind>
    decreases segs.len(),
{
    if segs.len() == 0 {
        Ok(seq![])
    } else if segs[0].len() == 0 {
        spec_query_pairs(segs.drop_first())
    } else {
        match split_once(segs[0], '=') {
            Some(kv) => prepend(seq![kv], spec_query_pairs(segs.drop_first())),
            None => Err(NpmErrorKind::InvalidHttpRequest),
        }
    }
}

/// The query parameters of a request line: those after the first `?` of its
/// second word. A request line of one word fails.
pub open spec fn spec_query_params(status: Seq<char>) -> Result<PairsView, NpmErrorKind> {
    let words = split(status, ' ');
    if words.len() < 2 {
        Err(NpmErrorKind::InvalidHttpRequest)
    } else {
        match split_once(words[1], '?') {
            Some(p) => if p.1.len() == 0 {
                Ok(seq![])
            } else {
                spec_query_pairs(split(p.1, '&'))
            },
            None => Ok(seq![]),
        }
    }
}

/// A request as plain values: request line, headers, query parameters.
pub type RequestView = (Seq<char>, PairsView, PairsView);

/// The request that the bytes `b` hold, or the kind of error they give.
pub open spec fn spec_build(b: Seq<u8>) -> Result<RequestView, NpmErrorKind> {
    let ls = head_lines(b);
    if ls.len() == 0 || !valid_utf8(ls[0]) {
        Err(NpmErrorKind::InvalidHttpRequest)
    } else {
        let status = decode_utf8(ls[0]);
        match spec_query_params(status) {
            Err(e) => Err(e),
            Ok(q) => match spec_headers(header_lines(b), b.len() >= HEADER_SIZE_LIMIT) {
                Err(e) => Err(e),
                Ok(h) => Ok((status, h, q)),
            },
        }
    }
}

/// The value that a list of pairs gives a key: the last pair with that key wins.
pub open spec fn lookup(ps: PairsView, key: Seq<char>) -> Option<Seq<char>>
    decreases ps.len(),
{
    if ps.len() == 0 {
        None
    } else if ps.last().0 == key {
        Some(ps.last().1)
    } else {
        lookup(ps.drop_last(), key)
    }
}

/// The route key of a request line: its method, its target without the query
/// string, and its version, joined by spaces. Missing words count as empty.
pub open spec fn spec_status_line_path(status: Seq<char>) -> Seq<char> {
    let words = split(status, ' ');
    let method = words[0];
    let route = if words.len() > 1 {
        words[1]
    } else {
        seq![]
    };
    let version = if words.len() > 2 {
        words[2]
    } else {
        seq![]
    };
    let path = match split_once(route, '?') {
        Some(p) => p.0,
        None => route,
    };
    method + seq![' '] + path + seq![' '] + version
}

/// An HTTP request: its request line, headers and query parameters.
pub struct Request {
    status_line: String,
    headers: Vec<(String, String)>,
    query_params: Vec<(String, String)>,
}

impl View for Request {
    type V = RequestView;

    closed spec fn view(&self) -> RequestView {
        (self.status_line@, params_view(self.headers@), params_view(self.query_params@))
    }
}

/// Trimmed text of `v`.
fn trimmed_string(v: &Vec<char>) -> (r: String)
    ensures
        r@ == trim(v@),
{
    let (a, b) = trim_range(v, 0, v.len());
    assert(v@.subrange(0, v@.len() as int) =~= v@);
    string_of(v, a, b)
}

proof fn lemma_prepend_push(acc: PairsView, kv: (Seq<char>, Seq<char>), r: Result<PairsView, NpmErrorKind>)
    ensures
        prepend(acc, prepend(seq![kv], r)) == prepend(acc.push(kv), r),
{
    match r {
        Ok(rest) => {
            assert(acc + (seq![kv] + rest) =~= acc.push(kv) + rest);
        },
        Err(_) => {},
    }
}

impl Request {
    /// Reads a request from the bytes a client sent: the request line, the headers
    /// up to the blank line, and the query parameters of the target. At most
    /// `HEADER_SIZE_LIMIT` bytes are read.
    pub fn build(stream_bytes: &[u8]) -> (r: Result<Request, NpmExpansionsError>)
        ensures
            match spec_build(stream_bytes@) {
                Ok(v) => r is Ok && r->Ok_0@ == v,
                Err(k) => r is Err && r->Err_0.kind_spec() == k,
            },
    {
        let n = if stream_bytes.len() > HEADER_SIZE_LIMIT {
            HEADER_SIZE_LIMIT
        } else {
            stream_bytes.len()
        };
        let mut head: Vec<u8> = Vec::new();
        let mut i: usize = 0;
        while i < n
            invariant
                i <= n <= stream_bytes@.len(),
                head@ == stream_bytes@.take(i as int),
            decreases n - i,
        {
            head.push(stream_bytes[i]);
            assert(head@ =~= stream_bytes@.take(i + 1));
            i += 1;
        }
        assert(head@ =~= head_of(stream_bytes@));
        let mut lr = byte_line_ranges(&head);
        let ghost ls = pieces(head@, lr@);
        if lr.len() == 0 {
            return Err(NpmExpansionsError::from(NpmErrorKind::InvalidHttpRequest));
        }
        let (lo, hi) = lr[0];
        let first = sub_vec(&head, lo, hi);
        assert(first@ == ls[0]);
        let status_line = match utf8_string(&first) {
            Some(s) => s,
            None => {
                return Err(NpmExpansionsError::from(NpmErrorKind::InvalidHttpRequest));
            },
        };
        let status_chars = chars_of(status_line.as_str());
        let query_params = match Self::build_query_params(&status_chars) {
            Ok(q) => q,
            Err(e) => {
                return Err(e);
            },
        };
        let capped = stream_bytes.len() >= HEADER_SIZE_LIMIT;
        if capped && head.len() > 0 && head[head.len() - 1] != 10u8 && lr.len() > 1 {
            let ghost before = lr@;
            lr.pop();
            assert(lr@ =~= before.drop_last());
            assert(pieces(head@, lr@) =~= ls.drop_last());
        }
        assert(pieces(head@, lr@).drop_first() =~= header_lines(stream_bytes@));
        let headers = match Self::build_headers(&head, &lr, capped) {
            Ok(h) => h,
            Err(e) => {
                return Err(e);
            },
        };
        Ok(Request { status_line, headers, query_params })
    }

    /// The headers on the lines after the request line, up to the blank line.
    fn build_headers(head: &Vec<u8>, lr: &Vec<(usize, usize)>, capped: bool) -> (r: Result<
        Vec<(String, String)>,
        NpmExpansionsError,
    >)
        requires
            ranges_within(lr@, head.len() as int),
            lr.len() >= 1,
        ensures
            match spec_headers(pieces(head@, lr@).drop_first(), capped) {
                Ok(h) => r is Ok && params_view(r->Ok_0@) == h,
                Err(k) => r is Err && r->Err_0.kind_spec() == k,
            },
    {
        let ghost ls = pieces(head@, lr@);
        let mut headers: Vec<(String, String)> = Vec::new();
        let mut i: usize = 1;
        assert(ls.drop_first() =~= ls.skip(1));
        assert(params_view(headers@) =~= seq![]);
        assert(prepend(seq![], spec_headers(ls.skip(1), capped)) == spec_headers(ls.skip(1), capped))
            by {
            match spec_headers(ls.skip(1), capped) {
                Ok(rest) => {
                    assert(seq![] + rest =~= rest);
                },
                Err(_) => {},
            }
        }
        while i < lr.len()
            invariant
                1 <= i <= lr.len(),
                ranges_within(lr@, head.len() as int),
                ls == pieces(head@, lr@),
                spec_headers(ls.drop_first(), capped) == prepend(
                    params_view(headers@),
                    spec_headers(ls.skip(i as int), capped),
                ),
            decreases lr.len() - i,
        {
            let (lo, hi) = lr[i];
            let line = sub_vec(head, lo, hi);
            let ghost rest = ls.skip(i as int);
            assert(rest[0] == line@);
            assert(rest.drop_first() =~= ls.skip(i + 1));
            let text = match utf8_string(&line) {
                Some(t) => t,
                None => {
                    return Err(NpmExpansionsError::from(NpmErrorKind::InvalidHttpRequest));
                },
            };
            let chars = chars_of(text.as_str());
            if chars.len() == 0 {
                assert(params_view(headers@) + seq![] =~= params_view(headers@));
                return Ok(headers);
            }
            let kv = match Self::header_key_value(&chars) {
                Ok(kv) => kv,
                Err(e) => {
                    return Err(e);
                },
            };
            proof {
                lemma_prepend_push(
                    params_view(headers@),
                    (kv.0@, kv.1@),
                    spec_headers(ls.skip(i + 1), capped),
                );
            }
            let ghost before = headers@;
            headers.push(kv);
            assert(params_view(headers@) =~= params_view(before).push((kv.0@, kv.1@)));
            i += 1;
        }
        assert(ls.skip(i as int) =~= seq![]);
        if capped {
            Err(NpmExpansionsError::from(NpmErrorKind::TooManyRequestHeaders))
        } else {
            Err(NpmExpansionsError::from(NpmErrorKind::InvalidHttpRequest))
        }
    }

    /// A header line cut at its first `:`, both sides trimmed.
    fn header_key_value(header_line: &Vec<char>) -> (r: Result<(String, String), NpmExpansionsError>)
        ensures
            match split_once(header_line@, ':') {
                Some(kv) => r is Ok && r->Ok_0.0@ == trim(kv.0) && r->Ok_0.1@ == trim(kv.1),
                None => r is Err && r->Err_0.kind_spec() == NpmErrorKind::InvalidRequestHeaders,
            },
    {
        match cut(header_line, ':') {
            Some((key, value)) => Ok((trimmed_string(&key), trimmed_string(&value))),
            None => Err(NpmExpansionsError::from(NpmErrorKind::InvalidRequestHeaders)),
        }
    }

    /// The query parameters of a request line.
    fn build_query_params(status_line: &Vec<char>) -> (r: Result<Vec<(String, String)>, NpmExpansionsError>)
        ensures
            match spec_query_params(status_line@) {
                Ok(q) => r is Ok && params_view(r->Ok_0@) == q,
                Err(k) => r is Err && r->Err_0.kind_spec() == k,
            },
    {
        let words = split_pieces(status_line, ' ');
        if words.len() < 2 {
            return Err(NpmExpansionsError::from(NpmErrorKind::InvalidHttpRequest));
        }
        match cut(&words[1], '?') {
            Some((_path, query)) => {
                if query.len() == 0 {
                    let v: Vec<(String, String)> = Vec::new();
                    assert(params_view(v@) =~= seq![]);
                    Ok(v)
                } else {
                    Self::process_query_string(&query)
                }
            },
            None => {
                let v: Vec<(String, String)> = Vec::new();
                assert(params_view(v@) =~= seq![]);
                Ok(v)
            },
        }
    }

    /// The pairs of a query string.
    fn process_query_string(query_string: &Vec<char>) -> (r: Result<Vec<(String, String)>, NpmExpansionsError>)
        ensures
            match spec_query_pairs(split(query_string@, '&')) {
                Ok(q) => r is Ok && params_view(r->Ok_0@) == q,
                Err(k) => r is Err && r->Err_0.kind_spec() == k,
            },
    {
        let segs = split_pieces(query_string, '&');
        let ghost sv = split(query_string@, '&');
        let mut params: Vec<(String, String)> = Vec::new();
        let mut i: usize = 0;
        assert(sv.skip(0) =~= sv);
        assert(prepend(seq![], spec_query_pairs(sv)) == spec_query_pairs(sv)) by {
            match spec_query_pairs(sv) {
                Ok(rest) => {
                    assert(seq![] + rest =~= rest);
                },
                Err(_) => {},
            }
        }
        assert(params_view(params@) =~= seq![]);
        while i < segs.len()
            invariant
                i <= segs.len(),
                sv == split(query_string@, '&'),
                segs@.len() == sv.len(),
                forall|k: int| 0 <= k < segs@.len() ==> (#[trigger] segs@[k])@ == sv[k],
                spec_query_pairs(sv) == prepend(params_view(params@), spec_query_pairs(sv.skip(i as int))),
            decreases segs.len() - i,
        {
            let ghost rest = sv.skip(i as int);
            assert(rest[0] == segs@[i as int]@);
            assert(rest.drop_first() =~= sv.skip(i + 1));
            if segs[i].len() > 0 {
                match cut(&segs[i], '=') {
                    Some((key, value)) => {
                        let k = string_of_all(&key);
                        let v = string_of_all(&value);
                        proof {
                            lemma_prepend_push(
                                params_view(params@),
                                (k@, v@),
                                spec_query_pairs(sv.skip(i + 1)),
                            );
                        }
                        let ghost before = params@;
                        params.push((k, v));
                        assert(params_view(params@) =~= params_view(before).push((k@, v@)));
                    },
                    None => {
                        return Err(NpmExpansionsError::from(NpmErrorKind::InvalidHttpRequest));
                    },
                }
            }
            i += 1;
        }
        assert(sv.skip(i as int) =~= seq![]);
        assert(params_view(params@) + seq![] =~= params_view(params@));
        Ok(params)
    }
}

/// The `Accept` header of a list of headers, looked up as `Accept` and then as
/// `accept`.
pub open spec fn accept_of(h: PairsView) -> Option<Seq<char>> {
    match lookup(h, "Accept"@) {
        Some(v) => Some(v),
        None => lookup(h, "accept"@),
    }
}

proof fn lemma_concat_lacks(a: Seq<char>, b: Seq<char>, c: char)
    requires
        !a.contains(c),
        !b.contains(c),
    ensures
        !(a + b).contains(c),
{
    if (a + b).contains(c) {
        let k = choose|k: int| 0 <= k < (a + b).len() && (a + b)[k] == c;
        if k < a.len() {
            assert(a[k] == c);
        } else {
            assert(b[k - a.len()] == c);
        }
    }
}

/// The route key of a request read from bytes holds no `?`, as long as the
/// method and version words of its request line hold none.
pub proof fn lemma_route_key_has_no_query(b: Seq<u8>)
    requires
        match spec_build(b) {
            Ok(v) => {
                let words = split(v.0, ' ');
                !words[0].contains('?') && (words.len() > 2 ==> !words[2].contains('?'))
            },
            Err(_) => true,
        },
    ensures
        match spec_build(b) {
            Ok(v) => !spec_status_line_path(v.0).contains('?'),
            Err(_) => true,
        },
{
    match spec_build(b) {
        Ok(v) => {
            let words = split(v.0, ' ');
            crate::text::lemma_split_nonempty(v.0, ' ');
            let route = if words.len() > 1 {
                words[1]
            } else {
                seq![]
            };
            let version = if words.len() > 2 {
                words[2]
            } else {
                seq![]
            };
            crate::text::lemma_first_index(route, '?');
            let path = match split_once(route, '?') {
                Some(p) => {
                    crate::text::lemma_split_once_join(route, '?');
                    p.0
                },
                None => route,
            };
            assert(!path.contains('?'));
            assert(!seq![' '].contains('?'));
            assert(!version.contains('?'));
            lemma_concat_lacks(words[0], seq![' '], '?');
            lemma_concat_lacks(words[0] + seq![' '], path, '?');
            lemma_concat_lacks(words[0] + seq![' '] + path, seq![' '], '?');
            lemma_concat_lacks(words[0] + seq![' '] + path + seq![' '], version, '?');
        },
        Err(_) => {},
    }
}

impl Request {
    /// A request with the given request line, headers and query parameters.
    pub fn new(status_line: &str, headers: Vec<(String, String)>, query_params: Vec<(String, String)>) -> (r: Request)
        ensures
            r@ == (status_line@, params_view(headers@), params_view(query_params@)),
    {
        Request { status_line: status_line.to_owned(), headers, query_params }
    }

    /// The request line.
    pub fn status_line(&self) -> (r: &str)
        ensures
            r@ == self@.0,
    {
        self.status_line.as_str()
    }

    /// The route key: method, target without its query string, and version.
    pub fn status_line_path(&self) -> (r: String)
        ensures
            r@ == spec_status_line_path(self@.0),
    {
        let line = chars_of(self.status_line.as_str());
        let words = split_pieces(&line, ' ');
        proof {
            crate::text::lemma_split_nonempty(line@, ' ');
        }
        let empty: Vec<char> = Vec::new();
        let route: &Vec<char> = if words.len() > 1 {
            &words[1]
        } else {
            &empty
        };
        let version: &Vec<char> = if words.len() > 2 {
            &words[2]
        } else {
            &empty
        };
        assert(empty@ =~= seq![]);
        let path: Vec<char> = match cut(route, '?') {
            Some((p, _query)) => p,
            None => route.clone(),
        };
        let mut r = String::new();
        push_all(&mut r, &words[0]);
        crate::text::push_text(&mut r, " ");
        push_all(&mut r, &path);
        crate::text::push_text(&mut r, " ");
        push_all(&mut r, version);
        proof {
            reveal_strlit(" ");
        }
        assert(r@ =~= spec_status_line_path(self@.0));
        r
    }

    /// The headers, in the order received; a later one overrides an earlier one
    /// of the same name.
    pub fn headers(&self) -> (r: &Vec<(String, String)>)
        ensures
            params_view(r@) == self@.1,
    {
        &self.headers
    }

    /// The query parameters, in the order written; a later one overrides an
    /// earlier one of the same name.
    pub fn query_params(&self) -> (r: &Vec<(String, String)>)
        ensures
            params_view(r@) == self@.2,
    {
        &self.query_params
    }

    /// The value of the header `name`, matched exactly.
    pub fn header(&self, name: &str) -> (r: Option<String>)
        ensures
            match lookup(self@.1, name@) {
                Some(v) => r is Some && r->0@ == v,
                None => r is None,
            },
    {
        pair_value(&self.headers, name)
    }

    /// The value of the query parameter `name`, matched exactly.
    pub fn query_param(&self, name: &str) -> (r: Option<String>)
        ensures
            match lookup(self@.2, name@) {
                Some(v) => r is Some && r->0@ == v,
                None => r is None,
            },
    {
        pair_value(&self.query_params, name)
    }

    /// The `Accept` header, under the name `Accept` or `accept`.
    pub fn accept_header(&self) -> (r: Option<String>)
        ensures
            match accept_of(self@.1) {
                Some(v) => r is Some && r->0@ == v,
                None => r is None,
            },
    {
        match self.header("Accept") {
            Some(v) => Some(v),
            None => self.header("accept"),
        }
    }
}

/// The value that `pairs` gives `name`: the last pair with that key.
fn pair_value(pairs: &Vec<(String, String)>, name: &str) -> (r: Option<String>)
    ensures
        match lookup(params_view(pairs@), name@) {
            Some(v) => r is Some && r->0@ == v,
            None => r is None,
        },
{
    let ghost pv = params_view(pairs@);
    let mut i = pairs.len();
    assert(pv.take(i as int) =~= pv);
    while i > 0
        invariant
            i <= pairs.len(),
            pv == params_view(pairs@),
            lookup(pv, name@) == lookup(pv.take(i as int), name@),
        decreases i,
    {
        assert(pv.take(i as int).last() == pv[i - 1]);
        if crate::text::str_eq(pairs[i - 1].0.as_str(), name) {
            return Some(pairs[i - 1].1.clone());
        }
        assert(pv.take(i as int).drop_last() =~= pv.take(i - 1));
        i -= 1;
    }
    assert(pv.take(0) =~= seq![]);
    None
}

} // verus!
