//! Character-sequence helpers shared by the parsers: searching, splitting,
//! trimming, line breaking and conversion between `str`, `Vec<char>` and bytes.
use vstd::prelude::*;
use vstd::std_specs::iter::IteratorSpec;
use vstd::utf8::*;

verus! {

broadcast use vstd::string::group_string_axioms;

/// Index of the first `c` in `s`, or `s.len()` when `c` does not occur.
pub open spec fn first_index<A>(s: Seq<A>, c: A) -> int
    decreases s.len(),
{
    if s.len() == 0 {
        0
    } else if s[0] == c {
        0
    } else {
        1 + first_index(s.drop_first(), c)
    }
}

/// The first `c` lies within `s`, no earlier element is `c`, and it is at the
/// end exactly when `s` holds no `c`.
pub proof fn lemma_first_index<A>(s: Seq<A>, c: A)
    ensures
        0 <= first_index(s, c) <= s.len(),
        forall|k: int| 0 <= k < first_index(s, c) ==> s[k] != c,
        first_index(s, c) < s.len() ==> s[first_index(s, c)] == c,
        !s.contains(c) <==> first_index(s, c) == s.len(),
    decreases s.len(),
{
    if s.len() > 0 && s[0] != c {
        lemma_first_index(s.drop_first(), c);
        assert forall|k: int| 0 <= k < first_index(s, c) implies s[k] != c by {
            if k > 0 {
                assert(s[k] == s.drop_first()[k - 1]);
            }
        }
        if first_index(s, c) < s.len() {
            assert(s[first_index(s, c)] == s.drop_first()[first_index(s, c) - 1]);
        }
        if s.contains(c) {
            let k = choose|k: int| 0 <= k < s.len() && s[k] == c;
            assert(s.drop_first()[k - 1] == c);
        }
        if s.drop_first().contains(c) {
            let k = choose|k: int| 0 <= k < s.len() - 1 && s.drop_first()[k] == c;
            assert(s[k + 1] == c);
        }
    } else if s.len() > 0 {
        assert(s.contains(c));
    }
}

/// The pieces of `s` between the occurrences of `c`, as `str::split` gives them:
/// always at least one piece.
pub open spec fn split<A>(s: Seq<A>, c: A) -> Seq<Seq<A>>
    decreases s.len(),
{
    let j = first_index(s, c);
    if j < 0 || j >= s.len() {
        seq![s]
    } else {
        seq![s.take(j)].add(split(s.skip(j + 1), c))
    }
}

/// `s` cut at its first `c`, as `str::split_once` does.
pub open spec fn split_once<A>(s: Seq<A>, c: A) -> Option<(Seq<A>, Seq<A>)> {
    let j = first_index(s, c);
    if 0 <= j < s.len() {
        Some((s.take(j), s.skip(j + 1)))
    } else {
        None
    }
}

/// A line without its `cr` before the line feed.
pub open spec fn strip_last<A>(s: Seq<A>, cr: A) -> Seq<A> {
    if s.len() > 0 && s.last() == cr {
        s.drop_last()
    } else {
        s
    }
}

/// The lines of `s` as `str::lines` and `BufRead::lines` give them: pieces ended
/// by `nl`, each without a `cr` that stands just before its `nl`, and a last piece
/// without `nl` only when it is not empty.
pub open spec fn lines_with<A>(s: Seq<A>, nl: A, cr: A) -> Seq<Seq<A>> {
    let p = split(s, nl);
    let ended = p.drop_last().map_values(|x: Seq<A>| strip_last(x, cr));
    if p.last().len() > 0 {
        ended.push(p.last())
    } else {
        ended
    }
}

/// The lines of a text.
pub open spec fn lines_of(s: Seq<char>) -> Seq<Seq<char>> {
    lines_with(s, '\n', '\r')
}

/// The text of `s[lo..hi]` for each range of `r`.
pub open spec fn pieces<A>(s: Seq<A>, r: Seq<(usize, usize)>) -> Seq<Seq<A>> {
    r.map_values(|p: (usize, usize)| s.subrange(p.0 as int, p.1 as int))
}

/// Every range of `r` lies inside a sequence of length `n`.
pub open spec fn ranges_within(r: Seq<(usize, usize)>, n: int) -> bool {
    forall|i: int| 0 <= i < r.len() ==> (#[trigger] r[i]).0 <= r[i].1 <= n
}

/// Relies on `String::push`: appends one character.
#[verifier::external_body]
pub(crate) fn push_char(s: &mut String, c: char)
    ensures
        final(s)@ == old(s)@.push(c),
{
    s.push(c)
}

/// Relies on `String::from_utf8`: decodes the bytes when they are valid UTF-8.
#[verifier::external_body]
pub(crate) fn utf8_string(b: &Vec<u8>) -> (r: Option<String>)
    ensures
        r is Some <==> valid_utf8(b@),
        r is Some ==> r->0@ == decode_utf8(b@),
{
    String::from_utf8(b.clone()).ok()
}

/// The characters of `s`, in order.
pub fn chars_of(s: &str) -> (r: Vec<char>)
    ensures
        r@ == s@,
{
    let mut v: Vec<char> = Vec::new();
    let mut it = s.chars();
    loop
        invariant
            v@ + it.remaining() == s@,
            it.decrease() is Some,
        decreases it.decrease()->0,
    {
        let next = it.next();
        match next {
            Some(c) => {
                v.push(c);
                assert(v@ + it.remaining() =~= s@);
            },
            None => {
                assert(v@ =~= s@);
                return v;
            },
        }
    }
}

/// A `String` holding `s[lo..hi]`.
pub fn string_of(s: &Vec<char>, lo: usize, hi: usize) -> (r: String)
    requires
        lo <= hi <= s.len(),
    ensures
        r@ == s@.subrange(lo as int, hi as int),
{
    let mut r = String::new();
    let mut i = lo;
    while i < hi
        invariant
            lo <= i <= hi <= s.len(),
            r@ == s@.subrange(lo as int, i as int),
        decreases hi - i,
    {
        push_char(&mut r, s[i]);
        assert(r@ =~= s@.subrange(lo as int, i + 1));
        i += 1;
    }
    r
}

/// Index of the first `c` in `s[from..]`, or `s.len()`.
pub fn find_char(s: &Vec<char>, from: usize, c: char) -> (r: usize)
    requires
        from <= s.len(),
    ensures
        r == from + first_index(s@.skip(from as int), c),
{
    let mut i = from;
    while i < s.len()
        invariant
            from <= i <= s.len(),
            first_index(s@.skip(from as int), c) == (i - from) + first_index(s@.skip(i as int), c),
        decreases s.len() - i,
    {
        if s[i] == c {
            return i;
        }
        assert(s@.skip(i as int).drop_first() =~= s@.skip(i + 1));
        i += 1;
    }
    i
}

/// Index of the first `c` in `s[from..]`, or `s.len()`.
pub fn find_byte(s: &Vec<u8>, from: usize, c: u8) -> (r: usize)
    requires
        from <= s@.len(),
    ensures
        r == from + first_index(s@.skip(from as int), c),
{
    let mut i = from;
    while i < s.len()
        invariant
            from <= i <= s@.len(),
            first_index(s@.skip(from as int), c) == (i - from) + first_index(s@.skip(i as int), c),
        decreases s@.len() - i,
    {
        if s[i] == c {
            return i;
        }
        assert(s@.skip(i as int).drop_first() =~= s@.skip(i + 1));
        i += 1;
    }
    i
}


/// One step of splitting: the piece up to the next `c`, and what follows it.
proof fn lemma_split_step<A>(s: Seq<A>, c: A, start: int, j: int)
    requires
        0 <= start <= s.len(),
        j == start + first_index(s.skip(start), c),
    ensures
        start <= j <= s.len(),
        j == s.len() ==> split(s.skip(start), c) == seq![s.subrange(start, j)],
        j < s.len() ==> s[j] == c && split(s.skip(start), c) == seq![s.subrange(start, j)].add(
            split(s.skip(j + 1), c),
        ),
{
    let t = s.skip(start);
    lemma_first_index(t, c);
    if j == s.len() {
        assert(t =~= s.subrange(start, j));
    } else {
        assert(t[j - start] == s[j]);
        assert(t.take(j - start) =~= s.subrange(start, j));
        assert(t.skip(j - start + 1) =~= s.skip(j + 1));
    }
}

/// Adding a range adds its piece.
proof fn lemma_pieces_push<A>(s: Seq<A>, r: Seq<(usize, usize)>, p: (usize, usize))
    ensures
        pieces(s, r.push(p)) == pieces(s, r).push(s.subrange(p.0 as int, p.1 as int)),
{
    assert(pieces(s, r.push(p)) =~= pieces(s, r).push(s.subrange(p.0 as int, p.1 as int)));
}

/// The ranges of the pieces of `s` between occurrences of `c`.
pub fn split_chars(s: &Vec<char>, c: char) -> (r: Vec<(usize, usize)>)
    ensures
        ranges_within(r@, s.len() as int),
        pieces(s@, r@) == split(s@, c),
{
    let mut r: Vec<(usize, usize)> = Vec::new();
    let mut start: usize = 0;
    assert(s@.skip(0) =~= s@);
    loop
        invariant
            start <= s.len(),
            ranges_within(r@, s.len() as int),
            split(s@, c) == pieces(s@, r@).add(split(s@.skip(start as int), c)),
        decreases s.len() - start,
    {
        let j = find_char(s, start, c);
        proof {
            lemma_split_step(s@, c, start as int, j as int);
            lemma_pieces_push(s@, r@, (start, j));
        }
        r.push((start, j));
        if j == s.len() {
            assert(split(s@, c) =~= pieces(s@, r@));
            return r;
        }
        assert(split(s@, c) =~= pieces(s@, r@).add(split(s@.skip(j + 1), c)));
        start = j + 1;
    }
}

/// The ranges of the pieces of `s` between occurrences of `c`.
pub fn split_bytes(s: &Vec<u8>, c: u8) -> (r: Vec<(usize, usize)>)
    ensures
        ranges_within(r@, s@.len() as int),
        pieces(s@, r@) == split(s@, c),
{
    let mut r: Vec<(usize, usize)> = Vec::new();
    let mut start: usize = 0;
    assert(s@.skip(0) =~= s@);
    loop
        invariant
            start <= s@.len(),
            ranges_within(r@, s@.len() as int),
            split(s@, c) == pieces(s@, r@).add(split(s@.skip(start as int), c)),
        decreases s@.len() - start,
    {
        let j = find_byte(s, start, c);
        proof {
            lemma_split_step(s@, c, start as int, j as int);
            lemma_pieces_push(s@, r@, (start, j));
        }
        r.push((start, j));
        if j == s.len() {
            assert(split(s@, c) =~= pieces(s@, r@));
            return r;
        }
        assert(split(s@, c) =~= pieces(s@, r@).add(split(s@.skip(j + 1), c)));
        start = j + 1;
    }
}

/// `c` has the Unicode `White_Space` property, as `char::is_whitespace` decides.
pub open spec fn is_space(c: char) -> bool {
    let u = c as u32;
    (0x9 <= u <= 0xd) || u == 0x20 || u == 0x85 || u == 0xa0 || u == 0x1680 || (0x2000 <= u
        <= 0x200a) || u == 0x2028 || u == 0x2029 || u == 0x202f || u == 0x205f || u == 0x3000
}

/// `s` without its leading white space.
pub open spec fn trim_start(s: Seq<char>) -> Seq<char>
    decreases s.len(),
{
    if s.len() > 0 && is_space(s[0]) {
        trim_start(s.drop_first())
    } else {
        s
    }
}

/// `s` without its trailing white space.
pub open spec fn trim_end(s: Seq<char>) -> Seq<char>
    decreases s.len(),
{
    if s.len() > 0 && is_space(s.last()) {
        trim_end(s.drop_last())
    } else {
        s
    }
}

/// `s` without leading and trailing white space, as `str::trim` gives it.
pub open spec fn trim(s: Seq<char>) -> Seq<char> {
    trim_end(trim_start(s))
}

/// Whether `c` is white space.
pub fn is_space_char(c: char) -> (r: bool)
    ensures
        r == is_space(c),
{
    let u = c as u32;
    (0x9 <= u && u <= 0xd) || u == 0x20 || u == 0x85 || u == 0xa0 || u == 0x1680 || (0x2000 <= u
        && u <= 0x200a) || u == 0x2028 || u == 0x2029 || u == 0x202f || u == 0x205f || u == 0x3000
}

/// The range of `s[lo..hi]` that remains once white space is trimmed from both ends.
pub fn trim_range(s: &Vec<char>, lo: usize, hi: usize) -> (r: (usize, usize))
    requires
        lo <= hi <= s.len(),
    ensures
        lo <= r.0 <= r.1 <= hi,
        s@.subrange(r.0 as int, r.1 as int) == trim(s@.subrange(lo as int, hi as int)),
{
    let mut a = lo;
    while a < hi && is_space_char(s[a])
        invariant
            lo <= a <= hi <= s.len(),
            trim_start(s@.subrange(lo as int, hi as int)) == trim_start(
                s@.subrange(a as int, hi as int),
            ),
        decreases hi - a,
    {
        assert(s@.subrange(a as int, hi as int).drop_first() =~= s@.subrange(a + 1, hi as int));
        a += 1;
    }
    let mut b = hi;
    while b > a && is_space_char(s[b - 1])
        invariant
            lo <= a <= b <= hi <= s.len(),
            trim(s@.subrange(lo as int, hi as int)) == trim_end(s@.subrange(a as int, b as int)),
        decreases b - a,
    {
        assert(s@.subrange(a as int, b as int).drop_last() =~= s@.subrange(a as int, b - 1));
        b -= 1;
    }
    (a, b)
}

/// Splitting always gives at least one piece.
pub proof fn lemma_split_nonempty<A>(s: Seq<A>, c: A)
    ensures
        split(s, c).len() >= 1,
    decreases s.len(),
{
}

/// The ranges of the lines of a text.
pub fn line_ranges(s: &Vec<char>) -> (r: Vec<(usize, usize)>)
    ensures
        ranges_within(r@, s.len() as int),
        pieces(s@, r@) == lines_of(s@),
{
    let p = split_chars(s, '\n');
    proof {
        lemma_split_nonempty(s@, '\n');
    }
    let ghost sp = split(s@, '\n');
    let mut r: Vec<(usize, usize)> = Vec::new();
    let mut i: usize = 0;
    let n = p.len();
    while i + 1 < n
        invariant
            n == p.len() == sp.len() >= 1,
            i + 1 <= n,
            ranges_within(p@, s.len() as int),
            pieces(s@, p@) == sp,
            ranges_within(r@, s.len() as int),
            pieces(s@, r@) == sp.take(i as int).map_values(|x: Seq<char>| strip_last(x, '\r')),
        decreases n - i,
    {
        let (lo, hi) = p[i];
        assert(sp[i as int] == s@.subrange(lo as int, hi as int));
        let e = if hi > lo && s[hi - 1] == '\r' {
            hi - 1
        } else {
            hi
        };
        proof {
            lemma_pieces_push(s@, r@, (lo, e));
            if hi > lo && s[hi - 1] == '\r' {
                assert(s@.subrange(lo as int, hi as int).drop_last() =~= s@.subrange(
                    lo as int,
                    e as int,
                ));
            }
        }
        r.push((lo, e));
        assert(sp.take(i + 1).map_values(|x: Seq<char>| strip_last(x, '\r')) =~= sp.take(
            i as int,
        ).map_values(|x: Seq<char>| strip_last(x, '\r')).push(strip_last(sp[i as int], '\r')));
        i += 1;
    }
    let (lo, hi) = p[n - 1];
    assert(sp.last() == s@.subrange(lo as int, hi as int));
    assert(sp.take(i as int) =~= sp.drop_last());
    if hi > lo {
        proof {
            lemma_pieces_push(s@, r@, (lo, hi));
        }
        r.push((lo, hi));
    }
    r
}

/// A copy of `s[lo..hi]`.
pub fn sub_vec<A: Copy>(s: &Vec<A>, lo: usize, hi: usize) -> (r: Vec<A>)
    requires
        lo <= hi <= s.len(),
    ensures
        r@ == s@.subrange(lo as int, hi as int),
{
    let mut r: Vec<A> = Vec::new();
    let mut i = lo;
    while i < hi
        invariant
            lo <= i <= hi <= s.len(),
            r@ == s@.subrange(lo as int, i as int),
        decreases hi - i,
    {
        r.push(s[i]);
        assert(r@ =~= s@.subrange(lo as int, i + 1));
        i += 1;
    }
    r
}

/// `s` cut at its first `c`.
pub fn cut(s: &Vec<char>, c: char) -> (r: Option<(Vec<char>, Vec<char>)>)
    ensures
        match split_once(s@, c) {
            Some(p) => match r {
                Some(q) => q.0@ == p.0 && q.1@ == p.1,
                None => false,
            },
            None => r is None,
        },
{
    let j = find_char(s, 0, c);
    assert(s@.skip(0) =~= s@);
    proof {
        lemma_first_index(s@, c);
    }
    if j < s.len() {
        let a = sub_vec(s, 0, j);
        let b = sub_vec(s, j + 1, s.len());
        assert(a@ =~= s@.take(j as int));
        assert(b@ =~= s@.skip(j + 1));
        Some((a, b))
    } else {
        None
    }
}

/// The pieces of `s` between occurrences of `c`, each as its own vector.
pub fn split_pieces(s: &Vec<char>, c: char) -> (r: Vec<Vec<char>>)
    ensures
        r@.len() == split(s@, c).len(),
        forall|i: int| 0 <= i < r@.len() ==> (#[trigger] r@[i])@ == split(s@, c)[i],
{
    let ranges = split_chars(s, c);
    let mut r: Vec<Vec<char>> = Vec::new();
    let mut i: usize = 0;
    while i < ranges.len()
        invariant
            i <= ranges.len(),
            ranges_within(ranges@, s.len() as int),
            pieces(s@, ranges@) == split(s@, c),
            r@.len() == i,
            forall|k: int| 0 <= k < i ==> (#[trigger] r@[k])@ == split(s@, c)[k],
        decreases ranges.len() - i,
    {
        let (lo, hi) = ranges[i];
        assert(pieces(s@, ranges@)[i as int] == s@.subrange(lo as int, hi as int));
        let piece = sub_vec(s, lo, hi);
        r.push(piece);
        i += 1;
    }
    r
}

/// The text of `s`.
pub fn string_of_all(s: &Vec<char>) -> (r: String)
    ensures
        r@ == s@,
{
    let r = string_of(s, 0, s.len());
    assert(s@.subrange(0, s@.len() as int) =~= s@);
    r
}

/// Whether two character vectors are equal.
pub fn chars_eq(a: &Vec<char>, b: &Vec<char>) -> (r: bool)
    ensures
        r == (a@ == b@),
{
    if a.len() != b.len() {
        return false;
    }
    let mut i: usize = 0;
    while i < a.len()
        invariant
            a.len() == b.len(),
            i <= a.len(),
            forall|k: int| 0 <= k < i ==> a@[k] == b@[k],
        decreases a.len() - i,
    {
        if a[i] != b[i] {
            return false;
        }
        i += 1;
    }
    assert(a@ =~= b@);
    true
}

/// Whether two strings are equal.
pub fn str_eq(a: &str, b: &str) -> (r: bool)
    ensures
        r == (a@ == b@),
{
    let x = chars_of(a);
    let y = chars_of(b);
    chars_eq(&x, &y)
}

/// Joins `qs` after a first piece, each behind a `c`.
pub open spec fn tail_join<A>(qs: Seq<Seq<A>>, c: A) -> Seq<A>
    decreases qs.len(),
{
    if qs.len() == 0 {
        seq![]
    } else {
        seq![c] + qs[0] + tail_join(qs.drop_first(), c)
    }
}

/// Splitting at `c` and joining again with `c` gives the text back.
pub proof fn lemma_split_join<A>(t: Seq<A>, c: A)
    ensures
        split(t, c).len() >= 1,
        t == split(t, c)[0] + tail_join(split(t, c).drop_first(), c),
    decreases t.len(),
{
    lemma_first_index(t, c);
    let j = first_index(t, c);
    if j < t.len() {
        let u = t.skip(j + 1);
        lemma_split_join(u, c);
        let ps = split(t, c);
        assert(ps.drop_first() =~= split(u, c));
        assert(ps[0] == t.take(j));
        assert(tail_join(split(u, c), c) == seq![c] + split(u, c)[0] + tail_join(
            split(u, c).drop_first(),
            c,
        ));
        assert(t =~= t.take(j) + (seq![c] + u));
        assert(t =~= ps[0] + tail_join(ps.drop_first(), c));
    } else {
        assert(t =~= split(t, c)[0] + tail_join(split(t, c).drop_first(), c));
    }
}

/// Cutting at `c` and putting the halves back around a `c` gives the text back.
pub proof fn lemma_split_once_join<A>(t: Seq<A>, c: A)
    requires
        split_once(t, c) is Some,
    ensures
        ({
            let q = split_once(t, c)->0;
            t == q.0 + seq![c] + q.1 && !q.0.contains(c)
        }),
{
    lemma_first_index(t, c);
    let j = first_index(t, c);
    assert(t =~= t.take(j) + seq![c] + t.skip(j + 1));
}

/// Trimmed at the start, a text starts with no white space, and trimming it
/// again changes nothing.
pub proof fn lemma_trim_start(s: Seq<char>)
    ensures
        trim_start(s).len() > 0 ==> !is_space(trim_start(s)[0]),
        trim_start(trim_start(s)) == trim_start(s),
    decreases s.len(),
{
    if s.len() > 0 && is_space(s[0]) {
        lemma_trim_start(s.drop_first());
    }
}

/// Trimmed at the end, a text is a prefix of the original that ends in no white
/// space, and trimming it again changes nothing.
pub proof fn lemma_trim_end(s: Seq<char>)
    ensures
        trim_end(s).len() <= s.len(),
        trim_end(s) == s.take(trim_end(s).len() as int),
        trim_end(s).len() > 0 ==> !is_space(trim_end(s).last()),
        trim_end(trim_end(s)) == trim_end(s),
    decreases s.len(),
{
    if s.len() > 0 && is_space(s.last()) {
        lemma_trim_end(s.drop_last());
        assert(s.drop_last().take(trim_end(s).len() as int) =~= s.take(trim_end(s).len() as int));
    } else {
        assert(s.take(s.len() as int) =~= s);
    }
}

/// Trimming twice is trimming once.
pub proof fn lemma_trim_idempotent(s: Seq<char>)
    ensures
        trim(trim(s)) == trim(s),
{
    let a = trim_start(s);
    lemma_trim_start(s);
    lemma_trim_end(a);
    let t = trim_end(a);
    if t.len() > 0 {
        assert(t[0] == a[0]);
    }
    assert(trim_start(t) == t);
}

/// The ranges of the lines of a byte sequence, ended by line feeds.
pub fn byte_line_ranges(s: &Vec<u8>) -> (r: Vec<(usize, usize)>)
    ensures
        ranges_within(r@, s.len() as int),
        pieces(s@, r@) == lines_with(s@, 10u8, 13u8),
{
    let p = split_bytes(s, 10u8);
    proof {
        lemma_split_nonempty(s@, 10u8);
    }
    let ghost sp = split(s@, 10u8);
    let mut r: Vec<(usize, usize)> = Vec::new();
    let mut i: usize = 0;
    let n = p.len();
    while i + 1 < n
        invariant
            n == p.len() == sp.len() >= 1,
            i + 1 <= n,
            ranges_within(p@, s.len() as int),
            pieces(s@, p@) == sp,
            ranges_within(r@, s.len() as int),
            pieces(s@, r@) == sp.take(i as int).map_values(|x: Seq<u8>| strip_last(x, 13u8)),
        decreases n - i,
    {
        let (lo, hi) = p[i];
        assert(sp[i as int] == s@.subrange(lo as int, hi as int));
        let e = if hi > lo && s[hi - 1] == 13u8 {
            hi - 1
        } else {
            hi
        };
        proof {
            lemma_pieces_push(s@, r@, (lo, e));
            if hi > lo && s[hi - 1] == 13u8 {
                assert(s@.subrange(lo as int, hi as int).drop_last() =~= s@.subrange(
                    lo as int,
                    e as int,
                ));
            }
        }
        r.push((lo, e));
        assert(sp.take(i + 1).map_values(|x: Seq<u8>| strip_last(x, 13u8)) =~= sp.take(
            i as int,
        ).map_values(|x: Seq<u8>| strip_last(x, 13u8)).push(strip_last(sp[i as int], 13u8)));
        i += 1;
    }
    let (lo, hi) = p[n - 1];
    assert(sp.last() == s@.subrange(lo as int, hi as int));
    assert(sp.take(i as int) =~= sp.drop_last());
    if hi > lo {
        proof {
            lemma_pieces_push(s@, r@, (lo, hi));
        }
        r.push((lo, hi));
    }
    r
}

/// Appends the characters of `v` to `s`.
pub fn push_all(s: &mut String, v: &Vec<char>)
    ensures
        final(s)@ == old(s)@ + v@,
{
    let ghost start = s@;
    let mut i: usize = 0;
    while i < v.len()
        invariant
            i <= v.len(),
            s@ == start + v@.take(i as int),
        decreases v.len() - i,
    {
        push_char(s, v[i]);
        assert(start + v@.take(i + 1) =~= (start + v@.take(i as int)).push(v@[i as int]));
        i += 1;
    }
    assert(v@.take(i as int) =~= v@);
}

/// Appends the text `t` to `s`.
pub fn push_text(s: &mut String, t: &str)
    ensures
        final(s)@ == old(s)@ + t@,
{
    let v = chars_of(t);
    push_all(s, &v);
}

/// The first `c` of `t` is at `k` when `t[k]` is `c` and no earlier one is.
pub proof fn lemma_first_index_is<A>(t: Seq<A>, c: A, k: int)
    requires
        0 <= k < t.len(),
        t[k] == c,
        forall|i: int| 0 <= i < k ==> t[i] != c,
    ensures
        first_index(t, c) == k,
{
    lemma_first_index(t, c);
    assert(t.contains(c));
}

/// Splitting around a separator splits each side.
pub proof fn lemma_split_concat<A>(u: Seq<A>, c: A, v: Seq<A>)
    ensures
        split(u + seq![c] + v, c) == split(u, c) + split(v, c),
    decreases u.len(),
{
    let t = u + seq![c] + v;
    lemma_first_index(u, c);
    let j = first_index(u, c);
    if j == u.len() {
        assert forall|i: int| 0 <= i < u.len() implies t[i] != c by {
            assert(t[i] == u[i]);
        }
        lemma_first_index_is(t, c, u.len() as int);
        assert(t.take(u.len() as int) =~= u);
        assert(t.skip(u.len() as int + 1) =~= v);
        assert(split(u, c) =~= seq![u]);
        assert(split(t, c) =~= seq![u] + split(v, c));
    } else {
        assert forall|i: int| 0 <= i < j implies t[i] != c by {
            assert(t[i] == u[i]);
        }
        assert(t[j] == u[j]);
        lemma_first_index_is(t, c, j);
        let w = u.skip(j + 1);
        lemma_split_concat(w, c, v);
        assert(t.take(j) =~= u.take(j));
        assert(t.skip(j + 1) =~= w + seq![c] + v);
        assert(split(t, c) =~= seq![u.take(j)] + (split(w, c) + split(v, c)));
        assert(split(u, c) =~= seq![u.take(j)] + split(w, c));
        assert(split(t, c) =~= split(u, c) + split(v, c));
    }
}

/// A text holding no `c` is its own single piece.
pub proof fn lemma_split_none<A>(x: Seq<A>, c: A)
    requires
        !x.contains(c),
    ensures
        split(x, c) == seq![x],
{
    lemma_first_index(x, c);
}

/// Adding one line, with its line feed, to a text that ends a line (or is empty)
/// adds that line to its lines.
pub proof fn lemma_lines_append_line(g: Seq<char>, x: Seq<char>)
    requires
        g.len() == 0 || g.last() == '\n',
        !x.contains('\n'),
        x.len() == 0 || x.last() != '\r',
    ensures
        lines_of(g + x + seq!['\n']) == lines_of(g).push(x),
{
    let h = g + x + seq!['\n'];
    lemma_split_none(x, '\n');
    lemma_split_none(Seq::<char>::empty(), '\n');
    assert(x + seq!['\n'] =~= x + seq!['\n'] + Seq::<char>::empty());
    lemma_split_concat(x, '\n', Seq::<char>::empty());
    let tail = split(x + seq!['\n'], '\n');
    assert(tail =~= seq![x, Seq::<char>::empty()]);
    if g.len() == 0 {
        assert(h =~= x + seq!['\n']);
        assert(g =~= Seq::<char>::empty());
        assert(split(h, '\n').drop_last() =~= seq![x]);
        assert(lines_of(h) =~= seq![x]);
        assert(lines_of(g) =~= seq![]);
    } else {
        let g2 = g.drop_last();
        assert(g =~= g2 + seq!['\n'] + Seq::<char>::empty());
        lemma_split_concat(g2, '\n', Seq::<char>::empty());
        assert(h =~= g2 + seq!['\n'] + (x + seq!['\n']));
        lemma_split_concat(g2, '\n', x + seq!['\n']);
        let p = split(g2, '\n');
        assert(split(g, '\n') =~= p + seq![Seq::<char>::empty()]);
        assert(split(h, '\n') =~= p + seq![x, Seq::<char>::empty()]);
        assert(split(g, '\n').drop_last() =~= p);
        assert(split(h, '\n').drop_last() =~= p.push(x));
        assert(lines_of(g) =~= p.map_values(|y: Seq<char>| strip_last(y, '\r')));
        assert(lines_of(h) =~= p.push(x).map_values(|y: Seq<char>| strip_last(y, '\r')));
        assert(lines_of(h) =~= lines_of(g).push(x));
    }
}

} // verus!
