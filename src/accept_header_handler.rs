//! Content negotiation: picks the server media type that best fits a client's
//! `Accept` header. Qualities are compared exactly, as decimal numbers.
use vstd::prelude::*;
use crate::mime_type::{parse_mime_type, spec_parse_mime_type, MimeTypeView};
use crate::npm_expansion_error::{NpmErrorKind, NpmExpansionsError};
use crate::quality::{full_quality, q_less, quality_of_text, quality_value, zero_quality, Quality, QualityView};
use crate::text::{chars_eq, chars_of, lemma_first_index, split, split_pieces, string_of_all};

verus! {

/// The value of the last parameter named `q`.
pub open spec fn q_param(ps: Seq<(Seq<char>, Seq<char>)>) -> Option<Seq<char>>
    decreases ps.len(),
{
    if ps.len() == 0 {
        None
    } else if ps.last().0 == seq!['q'] {
        Some(ps.last().1)
    } else {
        q_param(ps.drop_last())
    }
}

/// The quality of a parsed media type.
pub open spec fn mime_quality(m: MimeTypeView) -> QualityView {
    match m.2 {
        Some(ps) => match q_param(ps) {
            Some(v) => quality_of_text(v),
            None => full_quality(),
        },
        None => full_quality(),
    }
}

/// A quality above zero.
pub open spec fn q_positive(q: QualityView) -> bool {
    q.0
}

/// A parsed `Accept` clause: type, subtype, quality.
pub type Clause = (Seq<char>, Seq<char>, QualityView);

/// Type, subtype and quality of a media type, when it parses.
pub open spec fn spec_ensure_quality(s: Seq<char>) -> Option<Clause> {
    match spec_parse_mime_type(s) {
        Some(m) => Some((m.0, m.1, mime_quality(m))),
        None => None,
    }
}

/// The wildcard `*`.
pub open spec fn is_star(s: Seq<char>) -> bool {
    s.len() == 1 && s[0] == '*'
}

/// A clause of an `Accept` header matches a type and subtype, wildcards included.
pub open spec fn clause_matches(t: Seq<char>, st: Seq<char>, c: Clause) -> bool {
    (c.0 == t || is_star(c.0)) && (c.1 == st || is_star(c.1))
}

/// The exactness part of a clause's fitness: 100 for an exact type, 10 for an
/// exact subtype. The fitness is this plus the clause's quality, at most 1, so
/// fitnesses order by this part first and by quality next.
pub open spec fn clause_bonus(t: Seq<char>, st: Seq<char>, c: Clause) -> int {
    (if c.0 == t {
        100int
    } else {
        0int
    }) + (if c.1 == st {
        10int
    } else {
        0int
    })
}

/// Fitness `(b, q)` beats the best so far.
pub open spec fn fits_better(b: int, q: QualityView, best: Option<(int, QualityView)>) -> bool {
    match best {
        None => true,
        Some(p) => b > p.0 || (b == p.0 && q_less(p.1, q)),
    }
}

/// The best fitness so far (exactness part and quality), if any clause matched.
pub open spec fn fit_state(t: Seq<char>, st: Seq<char>, range: Seq<Clause>) -> Option<(int, QualityView)>
    decreases range.len(),
{
    if range.len() == 0 {
        None
    } else {
        let prev = fit_state(t, st, range.drop_last());
        let c = range.last();
        if clause_matches(t, st, c) && fits_better(clause_bonus(t, st, c), c.2, prev) {
            Some((clause_bonus(t, st, c), c.2))
        } else {
            prev
        }
    }
}

/// The quality of the best-fitting clause of `range` for a type and subtype; 0
/// when none matches.
pub open spec fn fitness_quality(t: Seq<char>, st: Seq<char>, range: Seq<Clause>) -> QualityView {
    match fit_state(t, st, range) {
        Some(p) => p.1,
        None => zero_quality(),
    }
}

/// The index of the candidate to pick: among those of positive quality, the last
/// one of highest quality.
pub open spec fn best_index(qs: Seq<QualityView>) -> Option<int>
    decreases qs.len(),
{
    if qs.len() == 0 {
        None
    } else {
        let b = best_index(qs.drop_last());
        let j = qs.len() - 1;
        if q_positive(qs[j]) && (b is None || !q_less(qs[j], qs[b->0])) {
            Some(j)
        } else {
            b
        }
    }
}

/// The clauses of an `Accept` header, parsed.
pub open spec fn parsed_range(clauses: Seq<Seq<char>>) -> Seq<Clause> {
    clauses.map_values(|c: Seq<char>| spec_ensure_quality(c)->0)
}

/// Every text of `ts` is a media type.
pub open spec fn all_parse(ts: Seq<Seq<char>>) -> bool {
    forall|i: int| 0 <= i < ts.len() ==> (#[trigger] spec_ensure_quality(ts[i])) is Some
}

/// The quality that each supported type reaches against `range`.
pub open spec fn supported_qualities(
    supported: Seq<Seq<char>>,
    range: Seq<Clause>,
) -> Seq<QualityView> {
    supported.map_values(|s: Seq<char>| supported_quality(s, range))
}

/// The quality that one supported type reaches against `range`.
pub open spec fn supported_quality(s: Seq<char>, range: Seq<Clause>) -> QualityView {
    match spec_ensure_quality(s) {
        Some(e) => fitness_quality(e.0, e.1, range),
        None => zero_quality(),
    }
}

/// The supported type that best fits the header, the empty text when none fits,
/// or the kind of error when one side does not parse.
pub open spec fn spec_best_match(supported: Seq<Seq<char>>, header: Seq<char>) -> Result<
    Seq<char>,
    NpmErrorKind,
> {
    if header.len() == 0 {
        Ok(seq![])
    } else {
        let clauses = split(header, ',');
        if !all_parse(clauses) {
            Err(NpmErrorKind::InvalidRequestMimeType)
        } else if !all_parse(supported) {
            Err(NpmErrorKind::SupportedMimeTypeError)
        } else {
            match best_index(supported_qualities(supported, parsed_range(clauses))) {
                Some(j) => Ok(supported[j]),
                None => Ok(seq![]),
            }
        }
    }
}

/// Parsed `Accept` clauses as plain values.
pub open spec fn range_view(r: Seq<(Vec<char>, Vec<char>, Quality)>) -> Seq<Clause> {
    r.map_values(|c: (Vec<char>, Vec<char>, Quality)| (c.0@, c.1@, c.2@))
}

/// Qualities as plain values.
pub open spec fn qualities_view(qs: Seq<Quality>) -> Seq<QualityView> {
    qs.map_values(|q: Quality| q@)
}

/// Whether `v` is the wildcard `*`.
fn is_star_chars(v: &Vec<char>) -> (r: bool)
    ensures
        r == is_star(v@),
{
    v.len() == 1 && v[0] == '*'
}

/// The quality that the last `q` parameter gives, full quality without one.
fn q_of_params(ps: &Vec<(String, String)>) -> (r: Quality)
    ensures
        r@ == match q_param(crate::mime_type::params_view(ps@)) {
            Some(v) => quality_of_text(v),
            None => full_quality(),
        },
{
    let ghost pv = crate::mime_type::params_view(ps@);
    let mut i = ps.len();
    assert(pv.take(i as int) =~= pv);
    while i > 0
        invariant
            i <= ps.len(),
            pv == crate::mime_type::params_view(ps@),
            q_param(pv) == q_param(pv.take(i as int)),
        decreases i,
    {
        let key = chars_of(ps[i - 1].0.as_str());
        assert(pv.take(i as int).last() == pv[i - 1]);
        if key.len() == 1 && key[0] == 'q' {
            assert(key@ =~= seq!['q']);
            let value = chars_of(ps[i - 1].1.as_str());
            return quality_value(&value);
        }
        assert(pv.take(i as int).drop_last() =~= pv.take(i - 1));
        i -= 1;
    }
    assert(pv.take(0) =~= seq![]);
    Quality::full()
}

/// Type, subtype and quality of a media type.
pub fn ensure_quality_value(mime_type: &str) -> (r: Result<(String, String, Quality), crate::mime_type::InvalidMimeType>)
    ensures
        match r {
            Ok(e) => spec_ensure_quality(mime_type@) == Some((e.0@, e.1@, e.2@)),
            Err(_) => spec_ensure_quality(mime_type@) is None,
        },
{
    let m = parse_mime_type(mime_type)?;
    let (ty, sub, params) = m;
    let quality = match params {
        Some(ps) => q_of_params(&ps),
        None => Quality::full(),
    };
    Ok((ty, sub, quality))
}

/// The quality of the best-fitting clause of `range` for a type and subtype.
fn fitness_chars(t: &Vec<char>, st: &Vec<char>, range: &Vec<(Vec<char>, Vec<char>, Quality)>) -> (r: Quality)
    ensures
        r@ == fitness_quality(t@, st@, range_view(range@)),
{
    let ghost rv = range_view(range@);
    let mut best: Option<(i64, Quality)> = None;
    let mut i: usize = 0;
    while i < range.len()
        invariant
            i <= range.len(),
            rv == range_view(range@),
            match fit_state(t@, st@, rv.take(i as int)) {
                Some(p) => match best {
                    Some(b) => b.0 as int == p.0 && b.1@ == p.1,
                    None => false,
                },
                None => best is None,
            },
        decreases range.len() - i,
    {
        let c = &range[i];
        assert(rv.take(i + 1).drop_last() =~= rv.take(i as int));
        assert(rv.take(i + 1).last() == rv[i as int]);
        let type_eq = chars_eq(&c.0, t);
        let sub_eq = chars_eq(&c.1, st);
        if (type_eq || is_star_chars(&c.0)) && (sub_eq || is_star_chars(&c.1)) {
            let mut bonus: i64 = 0;
            if type_eq {
                bonus += 100;
            }
            if sub_eq {
                bonus += 10;
            }
            let better = match &best {
                None => true,
                Some(b) => bonus > b.0 || (bonus == b.0 && b.1.less_than(&c.2)),
            };
            if better {
                best = Some((bonus, c.2.copy()));
            }
        }
        i += 1;
    }
    assert(rv.take(i as int) =~= rv);
    match best {
        Some(b) => b.1,
        None => Quality::zero(),
    }
}

/// Clauses given as text and quality, as plain values.
pub open spec fn text_range_view(r: Seq<(String, String, Quality)>) -> Seq<Clause> {
    r.map_values(|c: (String, String, Quality)| (c.0@, c.1@, c.2@))
}

/// The quality of the best-fitting clause of `mime_range` for `mime_type`.
pub fn fitness_of_mime_type(mime_type: &str, mime_range: &Vec<(String, String, Quality)>) -> (r: Result<
    Quality,
    crate::mime_type::InvalidMimeType,
>)
    ensures
        match r {
            Ok(q) => match spec_ensure_quality(mime_type@) {
                Some(e) => q@ == fitness_quality(e.0, e.1, text_range_view(mime_range@)),
                None => false,
            },
            Err(_) => spec_ensure_quality(mime_type@) is None,
        },
{
    let (t, st, _q) = ensure_quality_value(mime_type)?;
    let mut range: Vec<(Vec<char>, Vec<char>, Quality)> = Vec::new();
    let mut i: usize = 0;
    while i < mime_range.len()
        invariant
            i <= mime_range.len(),
            range_view(range@) == text_range_view(mime_range@.take(i as int)),
        decreases mime_range.len() - i,
    {
        let a = chars_of(mime_range[i].0.as_str());
        let b = chars_of(mime_range[i].1.as_str());
        let q = mime_range[i].2.copy();
        let ghost before = range@;
        range.push((a, b, q));
        assert(range_view(range@) =~= range_view(before).push(
            (mime_range@[i as int].0@, mime_range@[i as int].1@, mime_range@[i as int].2@),
        ));
        assert(mime_range@.take(i + 1) =~= mime_range@.take(i as int).push(mime_range@[i as int]));
        assert(range_view(range@) =~= text_range_view(mime_range@.take(i + 1)));
        i += 1;
    }
    assert(mime_range@.take(i as int) =~= mime_range@);
    let tc = chars_of(t.as_str());
    let sc = chars_of(st.as_str());
    Ok(fitness_chars(&tc, &sc, &range))
}

/// The views of a list of texts.
pub open spec fn texts_view(v: Seq<&str>) -> Seq<Seq<char>> {
    v.map_values(|s: &str| s@)
}

/// The index of the candidate to pick from the qualities `qs`.
fn pick_best(qs: &Vec<Quality>) -> (r: Option<usize>)
    ensures
        match best_index(qualities_view(qs@)) {
            Some(b) => r == Some(b as usize) && 0 <= b < qs.len(),
            None => r is None,
        },
        r is Some ==> r->0 < qs.len(),
{
    let ghost qn = qualities_view(qs@);
    let mut best: Option<usize> = None;
    let mut k: usize = 0;
    while k < qs.len()
        invariant
            k <= qs.len(),
            qn == qualities_view(qs@),
            match best_index(qn.take(k as int)) {
                Some(b) => best == Some(b as usize) && 0 <= b < k,
                None => best is None,
            },
        decreases qs.len() - k,
    {
        assert(qn.take(k + 1).drop_last() =~= qn.take(k as int));
        assert(qn.take(k + 1).last() == qs@[k as int]@);
        match best {
            Some(b) => {
                assert(qn.take(k as int)[b as int] == qs@[b as int]@);
                if qs[k].is_positive() && !qs[k].less_than(&qs[b]) {
                    best = Some(k);
                }
            },
            None => {
                if qs[k].is_positive() {
                    best = Some(k);
                }
            },
        }
        k += 1;
    }
    assert(qn.take(k as int) =~= qn);
    best
}

/// The clauses of an `Accept` header, parsed, when they all parse.
fn parse_accept(h: &Vec<char>) -> (r: Option<Vec<(Vec<char>, Vec<char>, Quality)>>)
    ensures
        r is Some <==> all_parse(split(h@, ',')),
        r is Some ==> range_view(r->0@) == parsed_range(split(h@, ',')),
{
    let clauses = split_pieces(h, ',');
    let ghost cl = split(h@, ',');
    let mut range: Vec<(Vec<char>, Vec<char>, Quality)> = Vec::new();
    let mut i: usize = 0;
    while i < clauses.len()
        invariant
            i <= clauses.len(),
            cl == split(h@, ','),
            clauses@.len() == cl.len(),
            forall|k: int| 0 <= k < clauses@.len() ==> (#[trigger] clauses@[k])@ == cl[k],
            forall|k: int| 0 <= k < i ==> (#[trigger] spec_ensure_quality(cl[k])) is Some,
            range_view(range@) == parsed_range(cl.take(i as int)),
        decreases clauses.len() - i,
    {
        let text = string_of_all(&clauses[i]);
        assert(text@ == cl[i as int]);
        match ensure_quality_value(text.as_str()) {
            Ok((t, st, q)) => {
                let a = chars_of(t.as_str());
                let b = chars_of(st.as_str());
                let ghost qv = q@;
                let ghost before = range@;
                range.push((a, b, q));
                assert(range_view(range@) =~= range_view(before).push((t@, st@, qv)));
                assert(cl.take(i + 1) =~= cl.take(i as int).push(cl[i as int]));
                assert(range_view(range@) =~= parsed_range(cl.take(i + 1)));
            },
            Err(_) => {
                assert(!all_parse(cl));
                return None;
            },
        }
        i += 1;
    }
    assert(cl.take(i as int) =~= cl);
    Some(range)
}

/// The quality that each supported type reaches against `range`, when they all
/// parse.
fn supported_fitness(supported: &Vec<&str>, range: &Vec<(Vec<char>, Vec<char>, Quality)>) -> (r: Option<
    Vec<Quality>,
>)
    ensures
        r is Some <==> all_parse(texts_view(supported@)),
        r is Some ==> qualities_view(r->0@) == supported_qualities(
            texts_view(supported@),
            range_view(range@),
        ),
{
    let ghost sv = texts_view(supported@);
    let ghost pr = range_view(range@);
    let mut qs: Vec<Quality> = Vec::new();
    let mut j: usize = 0;
    while j < supported.len()
        invariant
            j <= supported.len(),
            pr == range_view(range@),
            sv == texts_view(supported@),
            forall|k: int| 0 <= k < j ==> (#[trigger] spec_ensure_quality(sv[k])) is Some,
            qualities_view(qs@) == supported_qualities(sv, pr).take(j as int),
        decreases supported.len() - j,
    {
        assert(sv[j as int] == supported@[j as int]@);
        match ensure_quality_value(supported[j]) {
            Ok((t, st, _q)) => {
                let a = chars_of(t.as_str());
                let b = chars_of(st.as_str());
                let f = fitness_chars(&a, &b, range);
                let ghost fv = f@;
                let ghost before = qs@;
                qs.push(f);
                assert(qualities_view(qs@) =~= qualities_view(before).push(fv));
                assert(supported_qualities(sv, pr).take(j + 1) =~= supported_qualities(sv, pr).take(
                    j as int,
                ).push(supported_quality(sv[j as int], pr)));
            },
            Err(_) => {
                assert(!all_parse(sv));
                return None;
            },
        }
        j += 1;
    }
    assert(supported_qualities(sv, pr).take(j as int) =~= supported_qualities(sv, pr));
    Some(qs)
}

/// The supported media type that best fits the client's `Accept` header, or the
/// empty string when none fits or the header is empty.
pub fn best_match(supported_mime_types: Vec<&str>, accept_header: &str) -> (r: Result<
    String,
    NpmExpansionsError,
>)
    ensures
        match r {
            Ok(x) => spec_best_match(texts_view(supported_mime_types@), accept_header@) == Ok::<
                Seq<char>,
                NpmErrorKind,
            >(x@),
            Err(e) => spec_best_match(texts_view(supported_mime_types@), accept_header@) == Err::<
                Seq<char>,
                NpmErrorKind,
            >(e.kind_spec()),
        },
{
    let h = chars_of(accept_header);
    let ghost sv = texts_view(supported_mime_types@);
    if h.len() == 0 {
        let e = String::new();
        assert(e@ =~= seq![]);
        return Ok(e);
    }
    let range = match parse_accept(&h) {
        Some(range) => range,
        None => {
            return Err(NpmExpansionsError::from(NpmErrorKind::InvalidRequestMimeType));
        },
    };
    let qs = match supported_fitness(&supported_mime_types, &range) {
        Some(qs) => qs,
        None => {
            return Err(NpmExpansionsError::from(NpmErrorKind::SupportedMimeTypeError));
        },
    };
    let ghost qn = supported_qualities(sv, parsed_range(split(h@, ',')));
    assert(qualities_view(qs@) == qn);
    assert(qs@.len() == supported_mime_types@.len());
    match pick_best(&qs) {
        Some(b) => {
            assert(sv[b as int] == supported_mime_types@[b as int]@);
            let x = supported_mime_types[b].to_owned();
            Ok(x)
        },
        None => {
            let e = String::new();
            assert(e@ =~= seq![]);
            Ok(e)
        },
    }
}

proof fn lemma_best_index_bounds(qs: Seq<QualityView>)
    ensures
        best_index(qs) is Some ==> 0 <= best_index(qs)->0 < qs.len() && q_positive(qs[best_index(qs)->0]),
    decreases qs.len(),
{
    if qs.len() > 0 {
        lemma_best_index_bounds(qs.drop_last());
    }
}

/// Negotiation answers with one of the supported types or with the empty text.
pub proof fn lemma_best_match_picks_supported(supported: Seq<Seq<char>>, header: Seq<char>)
    ensures
        match spec_best_match(supported, header) {
            Ok(x) => x.len() == 0 || supported.contains(x),
            Err(_) => true,
        },
{
    if header.len() > 0 {
        let clauses = split(header, ',');
        let qs = supported_qualities(supported, parsed_range(clauses));
        lemma_best_index_bounds(qs);
        if all_parse(clauses) && all_parse(supported) && best_index(qs) is Some {
            let j = best_index(qs)->0;
            assert(supported[j] == supported[j]);
        }
    }
}

/// An empty `Accept` header matches nothing.
pub proof fn lemma_best_match_empty_header(supported: Seq<Seq<char>>)
    ensures
        spec_best_match(supported, seq![]) == Ok::<Seq<char>, NpmErrorKind>(seq![]),
{
}

/// A single well-formed supported type, offered back as the whole header, is the
/// match. (The type must hold no comma, which would split the header, and must
/// not name a quality of zero.)
pub proof fn lemma_best_match_single(x: Seq<char>)
    requires
        match spec_ensure_quality(x) {
            Some(e) => q_positive(e.2),
            None => false,
        },
        !x.contains(','),
    ensures
        spec_best_match(seq![x], x) == Ok::<Seq<char>, NpmErrorKind>(x),
{
    lemma_first_index(x, ',');
    let e = spec_ensure_quality(x)->0;
    assert(x.len() > 0) by {
        if x.len() == 0 {
            crate::text::lemma_trim_start(x);
            assert(crate::text::trim(x) =~= seq![]);
            assert(split(crate::text::trim(x), ';') =~= seq![seq![]]);
            lemma_first_index(seq![], '/');
        }
    }
    let clauses = split(x, ',');
    assert(clauses =~= seq![x]);
    assert(all_parse(clauses));
    let pr = parsed_range(clauses);
    assert(pr =~= seq![e]);
    assert(pr.drop_last() =~= seq![]);
    assert(fit_state(e.0, e.1, pr.drop_last()) is None);
    assert(clause_matches(e.0, e.1, e));
    assert(fit_state(e.0, e.1, pr) == Some((clause_bonus(e.0, e.1, e), e.2)));
    let qs = supported_qualities(seq![x], pr);
    assert(qs =~= seq![e.2]);
    assert(qs.drop_last() =~= seq![]);
    assert(best_index(qs.drop_last()) is None);
    assert(best_index(qs) == Some(0int));
}

} // verus!
