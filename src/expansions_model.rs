//! The expansions model: the expansions of an append-only text file, with
//! random selection, similarity search and appending of new lines.
use rand::Rng;
use vstd::prelude::*;
use vstd::set_lib::{lemma_int_range, lemma_len_subset, set_int_range};
use crate::text::{
    chars_of, lemma_lines_append_line, line_ranges, lines_of, pieces, push_char, push_text, str_eq,
    string_of,
};

verus! {

broadcast use vstd::seq_lib::seq_to_set_is_finite;

/// Similarity of two texts as `strsim::jaro_winkler` scores it, given by the bit
/// pattern of the score. The score lies in `[0, 1]`, and for such numbers the
/// bit patterns order as the numbers do.
pub uninterp spec fn jaro_winkler_bits(a: Seq<char>, b: Seq<char>) -> u64;

/// Relies on `strsim::jaro_winkler`: the similarity score of two texts (its bits).
#[verifier::external_body]
fn similarity(a: &str, b: &str) -> (r: u64)
    ensures
        r == jaro_winkler_bits(a@, b@),
{
    strsim::jaro_winkler(a, b).to_bits()
}

/// Relies on `rand::Rng::gen_range` over `rand::thread_rng()`: a number below `n`.
#[verifier::external_body]
fn random_below(n: usize) -> (r: usize)
    requires
        n > 0,
    ensures
        r < n,
{
    rand::thread_rng().gen_range(0..n)
}

/// A line is a comment when it starts with `#`.
pub open spec fn is_comment(l: Seq<char>) -> bool {
    l.len() > 0 && l[0] == '#'
}

/// The lines of `ls` that are not comments, in order.
pub open spec fn non_comments(ls: Seq<Seq<char>>) -> Seq<Seq<char>>
    decreases ls.len(),
{
    if ls.len() == 0 {
        seq![]
    } else if is_comment(ls.last()) {
        non_comments(ls.drop_last())
    } else {
        non_comments(ls.drop_last()).push(ls.last())
    }
}

/// The expansions that a file holds: its lines that are not comments.
pub open spec fn model_lines(file: Seq<char>) -> Seq<Seq<char>> {
    non_comments(lines_of(file))
}

/// The candidates that are not yet expansions, in order.
pub open spec fn new_candidates(model: Seq<Seq<char>>, xs: Seq<Seq<char>>) -> Seq<Seq<char>>
    decreases xs.len(),
{
    if xs.len() == 0 {
        seq![]
    } else if model.contains(xs.last()) {
        new_candidates(model, xs.drop_last())
    } else {
        new_candidates(model, xs.drop_last()).push(xs.last())
    }
}

/// Each line followed by a line feed.
pub open spec fn lines_text(ws: Seq<Seq<char>>) -> Seq<char>
    decreases ws.len(),
{
    if ws.len() == 0 {
        seq![]
    } else {
        lines_text(ws.drop_last()) + ws.last() + seq!['\n']
    }
}

/// Texts as plain values.
pub open spec fn strings_view(v: Seq<String>) -> Seq<Seq<char>> {
    v.map_values(|s: String| s@)
}

/// `i` ranks before `j`: a higher score, or the same score and an earlier position.
pub open spec fn better(s: Seq<u64>, i: int, j: int) -> bool {
    s[i] > s[j] || (s[i] == s[j] && i < j)
}

/// Position `j` is among those that `idx` lists.
pub open spec fn listed(idx: Seq<usize>, j: int) -> bool {
    exists|a: int| 0 <= a < idx.len() && #[trigger] idx[a] as int == j
}

/// `idx` lists the best positions of `s`, best first: every position not listed
/// ranks after every listed one.
pub open spec fn is_ranking(s: Seq<u64>, idx: Seq<usize>) -> bool {
    &&& forall|a: int| 0 <= a < idx.len() ==> (#[trigger] idx[a]) < s.len()
    &&& forall|a: int, b: int|
        0 <= a < b < idx.len() ==> better(s, #[trigger] idx[a] as int, #[trigger] idx[b] as int)
    &&& idx.len() > 0 ==> forall|j: int|
        0 <= j < s.len() && !listed(idx, j) ==> better(s, idx.last() as int, j)
}

/// The similarity of each expansion to `query`.
pub open spec fn similarities(exps: Seq<Seq<char>>, query: Seq<char>) -> Seq<u64> {
    Seq::new(exps.len(), |i: int| jaro_winkler_bits(exps[i], query))
}

/// How many results a search gives.
pub const SEARCH_LIMIT: usize = 10;

/// The expansions, backed by a file.
pub struct ExpansionsModel {
    expansions_file: String,
    expansions: Vec<String>,
}

impl View for ExpansionsModel {
    type V = Seq<Seq<char>>;

    closed spec fn view(&self) -> Seq<Seq<char>> {
        strings_view(self.expansions@)
    }
}

/// The expansions in the lines of `text`.
fn expansions_of_text(text: &str) -> (r: Vec<String>)
    ensures
        strings_view(r@) == model_lines(text@),
{
    let chars = chars_of(text);
    let ranges = line_ranges(&chars);
    let ghost ls = lines_of(text@);
    let mut r: Vec<String> = Vec::new();
    let mut i: usize = 0;
    while i < ranges.len()
        invariant
            i <= ranges.len(),
            chars@ == text@,
            crate::text::ranges_within(ranges@, chars.len() as int),
            pieces(chars@, ranges@) == ls,
            ls == lines_of(text@),
            strings_view(r@) == non_comments(ls.take(i as int)),
        decreases ranges.len() - i,
    {
        let (lo, hi) = ranges[i];
        assert(ls[i as int] == chars@.subrange(lo as int, hi as int));
        assert(ls.take(i + 1).drop_last() =~= ls.take(i as int));
        assert(ls.take(i + 1).last() == ls[i as int]);
        assert(is_comment(ls[i as int]) == (hi > lo && chars@[lo as int] == '#'));
        if !(hi > lo && chars[lo] == '#') {
            let line = string_of(&chars, lo, hi);
            let ghost before = r@;
            r.push(line);
            assert(strings_view(r@) =~= strings_view(before).push(line@));
        }
        i += 1;
    }
    assert(ls.take(i as int) =~= ls);
    r
}

/// Under a ranking, a position is listed exactly when it does not rank after the
/// last listed one.
proof fn lemma_listed(s: Seq<u64>, idx: Seq<usize>, x: int)
    requires
        is_ranking(s, idx),
        idx.len() > 0,
        0 <= x < s.len(),
    ensures
        listed(idx, x) <==> !better(s, idx.last() as int, x),
{
    if listed(idx, x) {
        let a = choose|a: int| 0 <= a < idx.len() && #[trigger] idx[a] as int == x;
        if a < idx.len() - 1 {
            assert(better(s, idx[a] as int, idx[idx.len() - 1] as int));
        }
    }
}

/// Fewer positions than `n` listed without repeats leave one out.
proof fn lemma_one_left(idx: Seq<usize>, n: int)
    requires
        idx.no_duplicates(),
        forall|a: int| 0 <= a < idx.len() ==> (#[trigger] idx[a]) < n,
        idx.len() < n,
    ensures
        exists|j: int| 0 <= j < n && !#[trigger] listed(idx, j),
{
    let ids = idx.map_values(|x: usize| x as int);
    assert(ids.no_duplicates()) by {
        assert forall|a: int, b: int| 0 <= a < ids.len() && 0 <= b < ids.len() && a != b implies ids[a]
            != ids[b] by {
            assert(idx[a] != idx[b]);
        }
    }
    ids.unique_seq_to_set();
    lemma_int_range(0, n);
    if forall|j: int| 0 <= j < n ==> #[trigger] listed(idx, j) {
        assert(set_int_range(0, n).subset_of(ids.to_set())) by {
            assert forall|j: int| set_int_range(0, n).contains(j) implies ids.to_set().contains(j) by {
                assert(listed(idx, j));
                let a = choose|a: int| 0 <= a < idx.len() && #[trigger] idx[a] as int == j;
                assert(ids[a] == j);
            }
        }
        lemma_len_subset(set_int_range(0, n), ids.to_set());
    }
}

/// The texts of `v` at the positions `idx`, in that order.
fn strings_at(v: &Vec<String>, idx: &Vec<usize>) -> (r: Vec<String>)
    requires
        forall|a: int| 0 <= a < idx@.len() ==> (#[trigger] idx@[a]) < v@.len(),
    ensures
        strings_view(r@) == idx@.map_values(|i: usize| strings_view(v@)[i as int]),
{
    let ghost sv = strings_view(v@);
    let mut r: Vec<String> = Vec::new();
    let mut j: usize = 0;
    while j < idx.len()
        invariant
            j <= idx.len(),
            sv == strings_view(v@),
            forall|a: int| 0 <= a < idx@.len() ==> (#[trigger] idx@[a]) < v@.len(),
            strings_view(r@) == idx@.take(j as int).map_values(|i: usize| sv[i as int]),
        decreases idx.len() - j,
    {
        let p = idx[j];
        assert(idx@[j as int] < v@.len());
        let e = v[p].clone();
        let ghost before = r@;
        r.push(e);
        assert(strings_view(r@) =~= strings_view(before).push(sv[p as int]));
        assert(idx@.take(j + 1) =~= idx@.take(j as int).push(p));
        assert(strings_view(r@) =~= idx@.take(j + 1).map_values(|i: usize| sv[i as int]));
        j += 1;
    }
    assert(idx@.take(j as int) =~= idx@);
    r
}

/// How many results a search of `n` expansions gives.
fn result_count(n: usize) -> (r: usize)
    ensures
        r == (if n < SEARCH_LIMIT {
            n
        } else {
            SEARCH_LIMIT
        }),
{
    if n < SEARCH_LIMIT {
        n
    } else {
        SEARCH_LIMIT
    }
}

/// The `k` best positions of `scores`, best first.
fn top_indices(scores: &Vec<u64>, k: usize) -> (r: Vec<usize>)
    requires
        k <= scores.len(),
    ensures
        is_ranking(scores@, r@),
        r@.len() == k,
{
    let n = scores.len();
    let mut chosen: Vec<usize> = Vec::new();
    while chosen.len() < k
        invariant
            k <= n == scores.len(),
            chosen.len() <= k,
            is_ranking(scores@, chosen@),
        decreases k - chosen.len(),
    {
        let ghost s = scores@;
        proof {
            assert(chosen@.no_duplicates()) by {
                assert forall|a: int, b: int|
                    0 <= a < chosen@.len() && 0 <= b < chosen@.len() && a != b implies chosen@[a]
                    != chosen@[b] by {
                    if a < b {
                        assert(better(s, chosen@[a] as int, chosen@[b] as int));
                    } else {
                        assert(better(s, chosen@[b] as int, chosen@[a] as int));
                    }
                }
            }
            lemma_one_left(chosen@, n as int);
        }
        let last: usize = if chosen.len() > 0 {
            chosen[chosen.len() - 1]
        } else {
            0
        };
        let mut best: usize = n;
        let mut j: usize = 0;
        while j < n
            invariant
                k <= n == scores.len(),
                chosen.len() < k,
                is_ranking(scores@, chosen@),
                s == scores@,
                chosen.len() > 0 ==> last == chosen@.last(),
                j <= n,
                best == n || (best < j && !listed(chosen@, best as int)),
                forall|x: int|
                    0 <= x < j && !#[trigger] listed(chosen@, x) ==> best < n && (x == best
                        || better(s, best as int, x)),
            decreases n - j,
        {
            let eligible = chosen.len() == 0 || scores[last] > scores[j] || (scores[last]
                == scores[j] && last < j);
            proof {
                if chosen.len() > 0 {
                    lemma_listed(s, chosen@, j as int);
                } else {
                    assert(!listed(chosen@, j as int));
                }
            }
            if eligible {
                if best == n || scores[j] > scores[best] || (scores[j] == scores[best] && j < best) {
                    proof {
                        if best < n {
                            assert forall|x: int|
                                0 <= x < j && !listed(chosen@, x) implies better(
                                s,
                                j as int,
                                x,
                            ) by {
                                if x != best {
                                    assert(better(s, best as int, x));
                                }
                            }
                        }
                    }
                    best = j;
                }
            }
            j += 1;
        }
        proof {
            let w = choose|w: int| 0 <= w < n && !#[trigger] listed(chosen@, w);
            assert(best < n);
        }
        let ghost old_chosen = chosen@;
        chosen.push(best);
        proof {
            assert(chosen@.last() == best);
            assert forall|a: int| 0 <= a < chosen@.len() implies (#[trigger] chosen@[a]) < s.len() by {
                if a < old_chosen.len() {
                    assert(chosen@[a] == old_chosen[a]);
                }
            }
            assert forall|a: int, b: int|
                0 <= a < b < chosen@.len() implies better(
                s,
                #[trigger] chosen@[a] as int,
                #[trigger] chosen@[b] as int,
            ) by {
                assert(chosen@[a] == old_chosen[a]);
                if b < old_chosen.len() {
                    assert(chosen@[b] == old_chosen[b]);
                } else {
                    lemma_listed(s, old_chosen, best as int);
                    if a < old_chosen.len() - 1 {
                        assert(better(s, old_chosen[a] as int, old_chosen.last() as int));
                    }
                }
            }
            assert forall|x: int| 0 <= x < s.len() && !listed(chosen@, x) implies better(
                s,
                chosen@.last() as int,
                x,
            ) by {
                if listed(old_chosen, x) {
                    let a = choose|a: int| 0 <= a < old_chosen.len() && #[trigger] old_chosen[a] as int == x;
                    assert(chosen@[a] as int == x);
                }
                assert(chosen@[old_chosen.len() as int] == best);
                assert(x != best);
            }
        }
    }
    chosen
}

/// Whether `v` holds the text `x`.
fn contains_text(v: &Vec<String>, x: &str) -> (r: bool)
    ensures
        r == strings_view(v@).contains(x@),
{
    let mut i: usize = 0;
    while i < v.len()
        invariant
            i <= v.len(),
            forall|k: int| 0 <= k < i ==> v@[k]@ != x@,
        decreases v.len() - i,
    {
        if str_eq(v[i].as_str(), x) {
            assert(strings_view(v@)[i as int] == x@);
            return true;
        }
        i += 1;
    }
    proof {
        if strings_view(v@).contains(x@) {
            let k = choose|k: int| 0 <= k < v@.len() && strings_view(v@)[k] == x@;
            assert(v@[k]@ == x@);
        }
    }
    false
}

impl ExpansionsModel {
    /// The path of the file behind this model.
    pub closed spec fn file_spec(&self) -> Seq<char> {
        self.expansions_file@
    }

    /// A model of the file at `path`, whose text is `file_contents`.
    pub fn new(path: &str, file_contents: &str) -> (r: ExpansionsModel)
        ensures
            r@ == model_lines(file_contents@),
            r.file_spec() == path@,
    {
        ExpansionsModel { expansions_file: path.to_owned(), expansions: expansions_of_text(file_contents) }
    }

    /// The path of the file behind this model.
    pub fn expansions_file(&self) -> (r: &str)
        ensures
            r@ == self.file_spec(),
    {
        self.expansions_file.as_str()
    }

    /// All expansions, in file order.
    pub fn all(&self) -> (r: &Vec<String>)
        ensures
            strings_view(r@) == self@,
    {
        &self.expansions
    }

    /// One expansion, drawn at random.
    pub fn random_expansion(&self) -> (r: String)
        requires
            self@.len() > 0,
        ensures
            self@.contains(r@),
    {
        let i = random_below(self.expansions.len());
        let r = self.expansions[i].clone();
        assert(self@[i as int] == r@);
        r
    }

    /// The expansions most similar to `query`, at most `SEARCH_LIMIT` of them,
    /// most similar first and, among equals, earliest in the file first.
    pub fn search(&self, query: &str) -> (r: Vec<String>)
        ensures
            exists|idx: Seq<usize>|
                #[trigger] is_ranking(similarities(self@, query@), idx) && idx.len() == (if self@.len()
                    < SEARCH_LIMIT {
                    self@.len()
                } else {
                    SEARCH_LIMIT as nat
                }) && strings_view(r@) == idx.map_values(|i: usize| self@[i as int]),
    {
        let ghost sims = similarities(self@, query@);
        let mut scores: Vec<u64> = Vec::new();
        let mut i: usize = 0;
        while i < self.expansions.len()
            invariant
                i <= self.expansions.len(),
                sims == similarities(self@, query@),
                scores@ == sims.take(i as int),
            decreases self.expansions.len() - i,
        {
            let score = similarity(self.expansions[i].as_str(), query);
            assert(self@[i as int] == self.expansions@[i as int]@);
            scores.push(score);
            assert(scores@ =~= sims.take(i + 1));
            i += 1;
        }
        assert(scores@ =~= sims);
        let k = result_count(self.expansions.len());
        let idx = top_indices(&scores, k);
        strings_at(&self.expansions, &idx)
    }

    /// The candidates that are not expansions yet, in order: what an append
    /// writes to the file, one per line.
    pub fn update_expansions_file(&self, expansions: &Vec<String>) -> (r: Vec<String>)
        ensures
            strings_view(r@) == new_candidates(self@, strings_view(expansions@)),
    {
        let ghost xs = strings_view(expansions@);
        let mut r: Vec<String> = Vec::new();
        let mut i: usize = 0;
        while i < expansions.len()
            invariant
                i <= expansions.len(),
                xs == strings_view(expansions@),
                strings_view(r@) == new_candidates(self@, xs.take(i as int)),
            decreases expansions.len() - i,
        {
            assert(xs.take(i + 1).drop_last() =~= xs.take(i as int));
            assert(xs.take(i + 1).last() == expansions@[i as int]@);
            if !contains_text(&self.expansions, expansions[i].as_str()) {
                let ghost before = r@;
                r.push(expansions[i].clone());
                assert(strings_view(r@) =~= strings_view(before).push(expansions@[i as int]@));
            }
            i += 1;
        }
        assert(xs.take(i as int) =~= xs);
        r
    }

    /// Replaces the expansions with those of the file's new text.
    pub fn reload(&mut self, file_contents: &str)
        ensures
            final(self)@ == model_lines(file_contents@),
            final(self).file_spec() == old(self).file_spec(),
    {
        self.expansions = expansions_of_text(file_contents);
    }
}

/// The text that appending `written` adds to the file: each line and a line feed.
pub fn appended_text(written: &Vec<String>) -> (r: String)
    ensures
        r@ == lines_text(strings_view(written@)),
{
    let ghost ws = strings_view(written@);
    let mut r = String::new();
    let mut i: usize = 0;
    assert(ws.take(0) =~= seq![]);
    while i < written.len()
        invariant
            i <= written.len(),
            ws == strings_view(written@),
            r@ == lines_text(ws.take(i as int)),
        decreases written.len() - i,
    {
        push_text(&mut r, written[i].as_str());
        push_char(&mut r, '\n');
        assert(ws.take(i + 1).drop_last() =~= ws.take(i as int));
        assert(ws.take(i + 1).last() == written@[i as int]@);
        i += 1;
    }
    assert(ws.take(i as int) =~= ws);
    r
}

/// An expansion as the file holds it: a non-empty line that is no comment and
/// does not end in a carriage return.
pub open spec fn is_expansion_line(x: Seq<char>) -> bool {
    x.len() > 0 && !is_comment(x) && !x.contains('\n') && x.last() != '\r'
}

/// The file after appending the candidates that are not expansions yet.
pub open spec fn spec_append(file: Seq<char>, xs: Seq<Seq<char>>) -> Seq<char> {
    file + lines_text(new_candidates(model_lines(file), xs))
}

proof fn lemma_lines_text(f: Seq<char>, w: Seq<Seq<char>>)
    requires
        f.len() == 0 || f.last() == '\n',
        forall|i: int| 0 <= i < w.len() ==> is_expansion_line(#[trigger] w[i]),
    ensures
        lines_of(f + lines_text(w)) == lines_of(f) + w,
        (f + lines_text(w)).len() == 0 || (f + lines_text(w)).last() == '\n',
    decreases w.len(),
{
    if w.len() == 0 {
        assert(f + lines_text(w) =~= f);
        assert(lines_of(f) + w =~= lines_of(f));
    } else {
        let w0 = w.drop_last();
        lemma_lines_text(f, w0);
        let g = f + lines_text(w0);
        assert(is_expansion_line(w[w.len() - 1]));
        lemma_lines_append_line(g, w.last());
        assert(f + lines_text(w) =~= g + w.last() + seq!['\n']);
        assert(lines_of(f) + w =~= (lines_of(f) + w0).push(w.last()));
    }
}

proof fn lemma_non_comments_append(ls: Seq<Seq<char>>, w: Seq<Seq<char>>)
    requires
        forall|i: int| 0 <= i < w.len() ==> !is_comment(#[trigger] w[i]),
    ensures
        non_comments(ls + w) == non_comments(ls) + w,
    decreases w.len(),
{
    if w.len() == 0 {
        assert(ls + w =~= ls);
        assert(non_comments(ls) + w =~= non_comments(ls));
    } else {
        let w0 = w.drop_last();
        lemma_non_comments_append(ls, w0);
        assert((ls + w).drop_last() =~= ls + w0);
        assert((ls + w).last() == w[w.len() - 1]);
        assert(non_comments(ls) + w =~= (non_comments(ls) + w0).push(w.last()));
    }
}

proof fn lemma_new_candidates_from(model: Seq<Seq<char>>, xs: Seq<Seq<char>>)
    ensures
        forall|i: int|
            0 <= i < new_candidates(model, xs).len() ==> xs.contains(
                #[trigger] new_candidates(model, xs)[i],
            ),
        forall|i: int|
            0 <= i < xs.len() ==> model.contains(#[trigger] xs[i]) || new_candidates(
                model,
                xs,
            ).contains(xs[i]),
    decreases xs.len(),
{
    if xs.len() > 0 {
        let x0 = xs.drop_last();
        lemma_new_candidates_from(model, x0);
        let n0 = new_candidates(model, x0);
        let n = new_candidates(model, xs);
        assert forall|i: int| 0 <= i < n.len() implies xs.contains(#[trigger] n[i]) by {
            if i < n0.len() {
                assert(n[i] == n0[i]);
                let k = choose|k: int| 0 <= k < x0.len() && x0[k] == n0[i];
                assert(xs[k] == x0[k]);
            } else {
                assert(xs[xs.len() - 1] == n[i]);
            }
        }
        assert forall|i: int|
            0 <= i < xs.len() implies model.contains(#[trigger] xs[i]) || n.contains(xs[i]) by {
            if i < x0.len() {
                assert(xs[i] == x0[i]);
                if n0.contains(x0[i]) {
                    let k = choose|k: int| 0 <= k < n0.len() && n0[k] == x0[i];
                    assert(n[k] == n0[k]);
                }
            } else if !model.contains(xs[i]) {
                assert(n[n.len() - 1] == xs[i]);
            }
        }
    }
}

proof fn lemma_no_new_candidates(model: Seq<Seq<char>>, xs: Seq<Seq<char>>)
    requires
        forall|i: int| 0 <= i < xs.len() ==> model.contains(#[trigger] xs[i]),
    ensures
        new_candidates(model, xs) == Seq::<Seq<char>>::empty(),
    decreases xs.len(),
{
    if xs.len() > 0 {
        assert forall|i: int| 0 <= i < xs.drop_last().len() implies model.contains(
            #[trigger] xs.drop_last()[i],
        ) by {
            assert(xs.drop_last()[i] == xs[i]);
        }
        lemma_no_new_candidates(model, xs.drop_last());
        assert(model.contains(xs[xs.len() - 1]));
    }
}

/// Appending the same candidates twice leaves the file as appending them once,
/// when the file ends its last line and the candidates are expansion lines.
pub proof fn lemma_append_idempotent(file: Seq<char>, xs: Seq<Seq<char>>)
    requires
        file.len() == 0 || file.last() == '\n',
        forall|i: int| 0 <= i < xs.len() ==> is_expansion_line(#[trigger] xs[i]),
    ensures
        spec_append(spec_append(file, xs), xs) == spec_append(file, xs),
{
    let m0 = model_lines(file);
    let w = new_candidates(m0, xs);
    lemma_new_candidates_from(m0, xs);
    assert forall|i: int| 0 <= i < w.len() implies is_expansion_line(#[trigger] w[i]) by {
        let k = choose|k: int| 0 <= k < xs.len() && xs[k] == w[i];
        assert(is_expansion_line(xs[k]));
    }
    let f1 = file + lines_text(w);
    lemma_lines_text(file, w);
    lemma_non_comments_append(lines_of(file), w);
    assert(model_lines(f1) == m0 + w);
    assert forall|i: int| 0 <= i < xs.len() implies (m0 + w).contains(#[trigger] xs[i]) by {
        if m0.contains(xs[i]) {
            let k = choose|k: int| 0 <= k < m0.len() && m0[k] == xs[i];
            assert((m0 + w)[k] == xs[i]);
        } else {
            assert(w.contains(xs[i]));
            let k = choose|k: int| 0 <= k < w.len() && w[k] == xs[i];
            assert((m0 + w)[m0.len() + k] == xs[i]);
        }
    }
    lemma_no_new_candidates(m0 + w, xs);
    assert(lines_text(Seq::<Seq<char>>::empty()) =~= seq![]);
    assert(f1 + lines_text(Seq::<Seq<char>>::empty()) =~= f1);
}

/// The edit distance between two texts: the fewest insertions, deletions and
/// substitutions of characters that turn one into the other.
pub open spec fn levenshtein_distance(a: Seq<char>, b: Seq<char>) -> nat
    decreases a.len() + b.len(),
{
    if a.len() == 0 {
        b.len()
    } else if b.len() == 0 {
        a.len()
    } else {
        let del = levenshtein_distance(a.drop_last(), b) + 1;
        let ins = levenshtein_distance(a, b.drop_last()) + 1;
        let sub = levenshtein_distance(a.drop_last(), b.drop_last()) + if a.last() == b.last() {
            0nat
        } else {
            1nat
        };
        if del <= ins && del <= sub {
            del
        } else if ins <= sub {
            ins
        } else {
            sub
        }
    }
}

/// Relies on `levenshtein::levenshtein`: the edit distance between two texts,
/// counted over characters.
#[verifier::external_body]
fn edit_distance(a: &str, b: &str) -> (r: usize)
    ensures
        r as nat == levenshtein_distance(a@, b@),
{
    levenshtein::levenshtein(a, b)
}

/// How close each expansion is to `query`: the smaller the edit distance, the
/// higher the score.
pub open spec fn closeness(exps: Seq<Seq<char>>, query: Seq<char>) -> Seq<u64> {
    Seq::new(exps.len(), |i: int| (u64::MAX - levenshtein_distance(exps[i], query)) as u64)
}

/// A plain list of expansions, read from a text, searched by edit distance.
pub struct NpmExpansions {
    expansions: Vec<String>,
}

impl View for NpmExpansions {
    type V = Seq<Seq<char>>;

    closed spec fn view(&self) -> Seq<Seq<char>> {
        strings_view(self.expansions@)
    }
}

impl NpmExpansions {
    /// The expansions on the lines of `expansions_string`: those that are not
    /// comments.
    pub fn new(expansions_string: &str) -> (r: NpmExpansions)
        ensures
            r@ == model_lines(expansions_string@),
    {
        NpmExpansions { expansions: expansions_of_text(expansions_string) }
    }

    /// All expansions, in order.
    pub fn expansions(&self) -> (r: &Vec<String>)
        ensures
            strings_view(r@) == self@,
    {
        &self.expansions
    }

    /// One expansion, drawn at random.
    pub fn random_expansion(&self) -> (r: String)
        requires
            self@.len() > 0,
        ensures
            self@.contains(r@),
    {
        let i = random_below(self.expansions.len());
        let r = self.expansions[i].clone();
        assert(self@[i as int] == r@);
        r
    }

    /// The expansions closest to `query` by edit distance, at most
    /// `SEARCH_LIMIT` of them, closest first and, among equals, earliest first.
    pub fn levenshtein_search(&self, query: &str) -> (r: Vec<String>)
        ensures
            exists|idx: Seq<usize>|
                #[trigger] is_ranking(closeness(self@, query@), idx) && idx.len() == (if self@.len()
                    < SEARCH_LIMIT {
                    self@.len()
                } else {
                    SEARCH_LIMIT as nat
                }) && strings_view(r@) == idx.map_values(|i: usize| self@[i as int]),
    {
        let ghost sims = closeness(self@, query@);
        let mut scores: Vec<u64> = Vec::new();
        let mut i: usize = 0;
        while i < self.expansions.len()
            invariant
                i <= self.expansions.len(),
                sims == closeness(self@, query@),
                scores@ == sims.take(i as int),
            decreases self.expansions.len() - i,
        {
            let d = edit_distance(self.expansions[i].as_str(), query);
            assert(self@[i as int] == self.expansions@[i as int]@);
            scores.push(u64::MAX - d as u64);
            assert(scores@ =~= sims.take(i + 1));
            i += 1;
        }
        assert(scores@ =~= sims);
        let k = result_count(self.expansions.len());
        let idx = top_indices(&scores, k);
        strings_at(&self.expansions, &idx)
    }
}

} // verus!
