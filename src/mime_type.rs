//! Media types: `type/subtype;key=value;...` split into their parts, and written
//! back out.
use vstd::prelude::*;
use crate::text::{
    push_char, push_text, chars_of, cut, find_char, lemma_first_index, lemma_split_join, lemma_split_nonempty,
    lemma_split_once_join, lemma_trim_idempotent, split, split_once, split_pieces, string_of_all,
    sub_vec, tail_join, trim, trim_range,
};

verus! {

/// A parsed media type: type, subtype and, when any were written, the
/// parameters in the order written (a later key overrides an earlier one).
pub type MimeType = (String, String, Option<Vec<(String, String)>>);

/// A media type as plain values.
pub type MimeTypeView = (Seq<char>, Seq<char>, Option<Seq<(Seq<char>, Seq<char>)>>);

/// A text that is not a media type.
#[derive(Debug, Clone, Copy, PartialEq, Eq, Structural)]
pub struct InvalidMimeType;

/// Parameters as plain values.
pub open spec fn params_view(p: Seq<(String, String)>) -> Seq<(Seq<char>, Seq<char>)> {
    p.map_values(|kv: (String, String)| (kv.0@, kv.1@))
}

/// A parsed media type as plain values.
pub open spec fn mime_view(m: MimeType) -> MimeTypeView {
    (
        m.0@,
        m.1@,
        match m.2 {
            Some(p) => Some(params_view(p@)),
            None => None,
        },
    )
}

/// A parameter segment `key=value` with a non-empty key, cut at its first `=`.
pub open spec fn parse_param(seg: Seq<char>) -> Option<(Seq<char>, Seq<char>)> {
    match split_once(seg, '=') {
        Some(kv) => if kv.0.len() > 0 {
            Some(kv)
        } else {
            None
        },
        None => None,
    }
}

/// The media type that `s` denotes: once trimmed and split at `;`, the first
/// segment holds exactly one `/` with text on both sides, and every other
/// segment holds a `=` behind a non-empty key.
pub open spec fn spec_parse_mime_type(s: Seq<char>) -> Option<MimeTypeView> {
    let parts = split(trim(s), ';');
    let segs = parts.drop_first();
    match split_once(parts[0], '/') {
        Some(ts) => if ts.0.len() > 0 && ts.1.len() > 0 && !ts.1.contains('/') && (forall|i: int|
            0 <= i < segs.len() ==> parse_param(#[trigger] segs[i]) is Some) {
            Some(
                (
                    ts.0,
                    ts.1,
                    if segs.len() == 0 {
                        None
                    } else {
                        Some(segs.map_values(|g: Seq<char>| parse_param(g)->0))
                    },
                ),
            )
        } else {
            None
        },
        None => None,
    }
}

/// One parameter written out as `key=value`.
pub open spec fn param_text(kv: (Seq<char>, Seq<char>)) -> Seq<char> {
    kv.0 + seq!['='] + kv.1
}

/// The canonical text of a media type: `type/subtype` followed by `;key=value`
/// for each parameter.
pub open spec fn spec_format_mime_type(m: MimeTypeView) -> Seq<char> {
    m.0 + seq!['/'] + m.1 + match m.2 {
        Some(ps) => tail_join(ps.map_values(|kv: (Seq<char>, Seq<char>)| param_text(kv)), ';'),
        None => seq![],
    }
}

/// A media type that parses is written back by the canonical formatter as its
/// trimmed text, and that text parses to the same media type.
pub proof fn lemma_mime_type_round_trip(s: Seq<char>)
    requires
        spec_parse_mime_type(s) is Some,
    ensures
        spec_format_mime_type(spec_parse_mime_type(s)->0) == trim(s),
        spec_parse_mime_type(spec_format_mime_type(spec_parse_mime_type(s)->0))
            == spec_parse_mime_type(s),
{
    let t = trim(s);
    let parts = split(t, ';');
    let segs = parts.drop_first();
    lemma_split_join(t, ';');
    lemma_split_once_join(parts[0], '/');
    let m = spec_parse_mime_type(s)->0;
    if segs.len() == 0 {
        assert(tail_join(segs, ';') =~= seq![]);
        assert(spec_format_mime_type(m) =~= t);
    } else {
        let ps = segs.map_values(|g: Seq<char>| parse_param(g)->0);
        let texts = ps.map_values(|kv: (Seq<char>, Seq<char>)| param_text(kv));
        assert forall|i: int| 0 <= i < segs.len() implies texts[i] == segs[i] by {
            assert(parse_param(segs[i]) is Some);
            lemma_split_once_join(segs[i], '=');
        }
        assert(texts =~= segs);
        assert(spec_format_mime_type(m) =~= t);
    }
    lemma_trim_idempotent(s);
}

/// Splits a media type into type, subtype and parameters.
pub fn parse_mime_type(mime_type: &str) -> (r: Result<MimeType, InvalidMimeType>)
    ensures
        match r {
            Ok(m) => spec_parse_mime_type(mime_type@) == Some(mime_view(m)),
            Err(_) => spec_parse_mime_type(mime_type@) is None,
        },
{
    let v = chars_of(mime_type);
    let (a, b) = trim_range(&v, 0, v.len());
    let t = sub_vec(&v, a, b);
    assert(v@.subrange(0, v@.len() as int) =~= v@);
    assert(t@ == trim(mime_type@));
    let parts = split_pieces(&t, ';');
    proof {
        lemma_split_nonempty(t@, ';');
    }
    let ghost segs = split(t@, ';').drop_first();
    let mut params: Vec<(String, String)> = Vec::new();
    let mut i: usize = 1;
    while i < parts.len()
        invariant
            1 <= i <= parts.len(),
            t@ == trim(mime_type@),
            parts@.len() == split(t@, ';').len(),
            forall|k: int| 0 <= k < parts@.len() ==> (#[trigger] parts@[k])@ == split(t@, ';')[k],
            segs == split(t@, ';').drop_first(),
            forall|k: int| 0 <= k < i - 1 ==> parse_param(#[trigger] segs[k]) is Some,
            params_view(params@) == segs.take(i - 1).map_values(
                |g: Seq<char>| parse_param(g)->0,
            ),
        decreases parts.len() - i,
    {
        assert(parts@[i as int]@ == segs[i - 1]);
        match cut(&parts[i], '=') {
            Some((key, value)) => {
                if key.len() == 0 {
                    assert(parse_param(segs[i - 1]) is None);
                    return Err(InvalidMimeType);
                }
                let k = string_of_all(&key);
                let val = string_of_all(&value);
                assert(parse_param(segs[i - 1]) == Some((key@, value@)));
                let ghost before = params@;
                params.push((k, val));
                assert(params_view(params@) =~= params_view(before).push((key@, value@)));
                assert(segs.take(i as int) =~= segs.take(i - 1).push(segs[i - 1]));
                assert(params_view(params@) =~= segs.take(i as int).map_values(
                    |g: Seq<char>| parse_param(g)->0,
                ));
            },
            None => {
                assert(parse_param(segs[i - 1]) is None);
                return Err(InvalidMimeType);
            },
        }
        i += 1;
    }
    assert(segs.take(i - 1) =~= segs);
    match cut(&parts[0], '/') {
        Some((ty, sub)) => {
            let slash = find_char(&sub, 0, '/');
            proof {
                assert(sub@.skip(0) =~= sub@);
                lemma_first_index(sub@, '/');
            }
            if ty.len() == 0 || sub.len() == 0 || slash < sub.len() {
                return Err(InvalidMimeType);
            }
            let ty_s = string_of_all(&ty);
            let sub_s = string_of_all(&sub);
            if parts.len() == 1 {
                Ok((ty_s, sub_s, None))
            } else {
                Ok((ty_s, sub_s, Some(params)))
            }
        },
        None => Err(InvalidMimeType),
    }
}

/// The canonical text of a media type: `type/subtype` followed by `;key=value`
/// for each parameter.
pub fn format_mime_type(m: &MimeType) -> (r: String)
    ensures
        r@ == spec_format_mime_type(mime_view(*m)),
{
    let mut r = String::new();
    push_text(&mut r, m.0.as_str());
    push_char(&mut r, '/');
    push_text(&mut r, m.1.as_str());
    match &m.2 {
        Some(ps) => {
            let ghost pv = params_view(ps@);
            let ghost texts = pv.map_values(|kv: (Seq<char>, Seq<char>)| param_text(kv));
            let ghost head = r@;
            let mut i: usize = 0;
            assert(tail_join(texts.take(0), ';') =~= seq![]);
            assert(head + seq![] =~= head);
            while i < ps.len()
                invariant
                    i <= ps.len(),
                    pv == params_view(ps@),
                    texts == pv.map_values(|kv: (Seq<char>, Seq<char>)| param_text(kv)),
                    r@ == head + joined_front(texts, i as int),
                decreases ps.len() - i,
            {
                push_char(&mut r, ';');
                push_text(&mut r, ps[i].0.as_str());
                push_char(&mut r, '=');
                push_text(&mut r, ps[i].1.as_str());
                proof {
                    lemma_join_step(texts, i as int);
                }
                assert(r@ =~= head + joined_front(texts, i + 1));
                i += 1;
            }
            proof {
                lemma_join_all(texts);
            }
            assert(r@ =~= spec_format_mime_type(mime_view(*m)));
        },
        None => {
            assert(r@ =~= spec_format_mime_type(mime_view(*m)));
        },
    }
    r
}

/// The first `n` texts, each behind a `;`, joined from the front.
pub open spec fn joined_front(texts: Seq<Seq<char>>, n: int) -> Seq<char>
    decreases n,
{
    if n <= 0 {
        seq![]
    } else {
        joined_front(texts, n - 1) + seq![';'] + texts[n - 1]
    }
}

proof fn lemma_join_step(texts: Seq<Seq<char>>, i: int)
    requires
        0 <= i < texts.len(),
    ensures
        joined_front(texts, i + 1) == joined_front(texts, i) + seq![';'] + texts[i],
{
}

proof fn lemma_join_from(texts: Seq<Seq<char>>, n: int)
    requires
        0 <= n <= texts.len(),
    ensures
        joined_front(texts, n) + tail_join(texts.skip(n), ';') == tail_join(texts, ';'),
    decreases n,
{
    if n == 0 {
        assert(texts.skip(0) =~= texts);
        assert(seq![] + tail_join(texts, ';') =~= tail_join(texts, ';'));
    } else {
        lemma_join_from(texts, n - 1);
        let rest = texts.skip(n - 1);
        assert(rest.drop_first() =~= texts.skip(n));
        assert(rest[0] == texts[n - 1]);
        assert(tail_join(rest, ';') == seq![';'] + rest[0] + tail_join(rest.drop_first(), ';'));
        assert(joined_front(texts, n) + tail_join(texts.skip(n), ';') =~= joined_front(
            texts,
            n - 1,
        ) + tail_join(rest, ';'));
    }
}

proof fn lemma_join_all(texts: Seq<Seq<char>>)
    ensures
        joined_front(texts, texts.len() as int) == tail_join(texts, ';'),
{
    lemma_join_from(texts, texts.len() as int);
    assert(texts.skip(texts.len() as int) =~= seq![]);
    assert(joined_front(texts, texts.len() as int) + seq![] =~= joined_front(
        texts,
        texts.len() as int,
    ));
}

} // verus!
