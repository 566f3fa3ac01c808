//! Quality values of media types, kept exact: a decimal number in `[0, 1]` as
//! its significant digits and the power of ten they stand at.
use vstd::prelude::*;
use crate::text::{cut, find_char, first_index, lemma_first_index, split_once, sub_vec};

verus! {

/// The largest exponent magnitude read; a larger one counts as this one.
pub const EXPONENT_LIMIT: u64 = 1000000000000;

/// `c` is a decimal digit.
pub open spec fn is_digit(c: char) -> bool {
    '0' <= c && c <= '9'
}

/// The value of a decimal digit.
pub open spec fn digit_value(c: char) -> nat {
    ((c as u32) - ('0' as u32)) as nat
}

/// Every character of `s` is a decimal digit.
pub open spec fn all_digits(s: Seq<char>) -> bool {
    forall|i: int| 0 <= i < s.len() ==> is_digit(#[trigger] s[i])
}

/// The number that a run of decimal digits writes.
pub open spec fn digits_value(s: Seq<char>) -> nat
    decreases s.len(),
{
    if s.len() == 0 {
        0
    } else {
        digits_value(s.drop_last()) * 10 + digit_value(s.last())
    }
}

/// How many `0`s `s` starts with.
pub open spec fn lead_zeros(s: Seq<char>) -> int
    decreases s.len(),
{
    if s.len() > 0 && s[0] == '0' {
        1 + lead_zeros(s.drop_first())
    } else {
        0
    }
}

/// How many `0`s `s` ends with.
pub open spec fn trail_zeros(s: Seq<char>) -> int
    decreases s.len(),
{
    if s.len() > 0 && s.last() == '0' {
        1 + trail_zeros(s.drop_last())
    } else {
        0
    }
}

/// A quality as plain values: whether it is positive, and if so the power of ten
/// `x` and significant digits `d` (no leading or trailing zero) with value
/// `0.d × 10^x`.
pub type QualityView = (bool, int, Seq<char>);

/// Quality zero.
pub open spec fn zero_quality() -> QualityView {
    (false, 0, seq![])
}

/// Full quality, one.
pub open spec fn full_quality() -> QualityView {
    (true, 1, seq!['1'])
}

/// Where the exponent mark (`e` or `E`) of a number is, or its length.
pub open spec fn exp_index(b: Seq<char>) -> int {
    let a = first_index(b, 'e');
    let c = first_index(b, 'E');
    if a < c {
        a
    } else {
        c
    }
}

/// The exponent a text writes: an optional sign and digits, its magnitude
/// capped at `EXPONENT_LIMIT`.
pub open spec fn exponent_of(et: Seq<char>) -> Option<int> {
    let neg = et.len() > 0 && et[0] == '-';
    let ed = if et.len() > 0 && (et[0] == '-' || et[0] == '+') {
        et.drop_first()
    } else {
        et
    };
    if ed.len() > 0 && all_digits(ed) {
        let m = if digits_value(ed) > EXPONENT_LIMIT {
            EXPONENT_LIMIT as int
        } else {
            digits_value(ed) as int
        };
        Some(
            if neg {
                -m
            } else {
                m
            },
        )
    } else {
        None
    }
}

/// A number written as `[+-]digits[.digits][e[+-]digits]` (the integer or the
/// fraction digits may be absent, not both): its sign, all its digits, how many
/// of them stand before the point, and its exponent.
pub open spec fn decimal_parts(v: Seq<char>) -> Option<(bool, Seq<char>, int, int)> {
    let neg = v.len() > 0 && v[0] == '-';
    let body = if v.len() > 0 && (v[0] == '-' || v[0] == '+') {
        v.drop_first()
    } else {
        v
    };
    let ei = exp_index(body);
    let mant = body.take(ei);
    let parts = match split_once(mant, '.') {
        Some(p) => p,
        None => (mant, Seq::<char>::empty()),
    };
    let exp = if ei >= body.len() {
        Some(0int)
    } else {
        exponent_of(body.skip(ei + 1))
    };
    if all_digits(parts.0) && all_digits(parts.1) && parts.0.len() + parts.1.len() > 0 && exp is Some {
        Some((neg, parts.0 + parts.1, parts.0.len() as int, exp->0))
    } else {
        None
    }
}

/// The quality that a `q` value gives: the number it writes when that lies in
/// `[0, 1]`, else full quality.
pub open spec fn quality_of_text(v: Seq<char>) -> QualityView {
    match decimal_parts(v) {
        None => full_quality(),
        Some(p) => {
            let d = p.1;
            let k = lead_zeros(d);
            if k >= d.len() {
                zero_quality()
            } else if p.0 {
                full_quality()
            } else {
                let sig = d.subrange(k, d.len() - trail_zeros(d));
                let x = p.2 + p.3 - k;
                if x < 1 || (x == 1 && sig == seq!['1']) {
                    (true, x, sig)
                } else {
                    full_quality()
                }
            }
        },
    }
}

/// `x` comes before `y` in the order of the fractions `0.x` and `0.y`.
pub open spec fn digits_less(x: Seq<char>, y: Seq<char>) -> bool
    decreases x.len(),
{
    if y.len() == 0 {
        false
    } else if x.len() == 0 {
        true
    } else if x[0] != y[0] {
        x[0] < y[0]
    } else {
        digits_less(x.drop_first(), y.drop_first())
    }
}

/// Quality `a` is lower than quality `b`.
pub open spec fn q_less(a: QualityView, b: QualityView) -> bool {
    if !b.0 {
        false
    } else if !a.0 {
        true
    } else {
        a.1 < b.1 || (a.1 == b.1 && digits_less(a.2, b.2))
    }
}

/// A quality: positive or zero, and when positive the value `0.digits × 10^exponent`.
#[derive(Debug, PartialEq, Eq)]
pub struct Quality {
    /// Whether the quality is above zero.
    pub positive: bool,
    /// The power of ten the digits stand at.
    pub exponent: i128,
    /// The significant digits, with no leading or trailing zero.
    pub digits: Vec<char>,
}

impl View for Quality {
    type V = QualityView;

    open spec fn view(&self) -> QualityView {
        if self.positive {
            (true, self.exponent as int, self.digits@)
        } else {
            zero_quality()
        }
    }
}

impl Quality {
    /// Full quality, one.
    pub fn full() -> (r: Quality)
        ensures
            r@ == full_quality(),
    {
        let mut digits: Vec<char> = Vec::new();
        digits.push('1');
        assert(digits@ =~= seq!['1']);
        Quality { positive: true, exponent: 1, digits }
    }

    /// Quality zero.
    pub fn zero() -> (r: Quality)
        ensures
            r@ == zero_quality(),
    {
        Quality { positive: false, exponent: 0, digits: Vec::new() }
    }

    /// The same quality.
    pub fn copy(&self) -> (r: Quality)
        ensures
            r@ == self@,
    {
        Quality { positive: self.positive, exponent: self.exponent, digits: sub_vec(&self.digits, 0, self.digits.len()) }
    }

    /// Whether this quality is above zero.
    pub fn is_positive(&self) -> (r: bool)
        ensures
            r == self@.0,
    {
        self.positive
    }

    /// Whether this quality is lower than `other`.
    pub fn less_than(&self, other: &Quality) -> (r: bool)
        ensures
            r == q_less(self@, other@),
    {
        if !other.positive {
            return false;
        }
        if !self.positive {
            return true;
        }
        if self.exponent != other.exponent {
            return self.exponent < other.exponent;
        }
        digits_before(&self.digits, &other.digits)
    }

    /// The quality that the `q` value `text` gives.
    pub fn parse(text: &str) -> (r: Quality)
        ensures
            r@ == quality_of_text(text@),
    {
        let v = crate::text::chars_of(text);
        quality_value(&v)
    }
}

/// Whether `0.x` is below `0.y`.
fn digits_before(x: &Vec<char>, y: &Vec<char>) -> (r: bool)
    ensures
        r == digits_less(x@, y@),
{
    let mut i: usize = 0;
    assert(x@.skip(0) =~= x@ && y@.skip(0) =~= y@);
    loop
        invariant
            i <= x.len() && i <= y.len(),
            digits_less(x@, y@) == digits_less(x@.skip(i as int), y@.skip(i as int)),
        decreases x.len() - i,
    {
        if i == y.len() {
            return false;
        }
        if i == x.len() {
            return true;
        }
        if x[i] != y[i] {
            return x[i] < y[i];
        }
        assert(x@.skip(i as int).drop_first() =~= x@.skip(i + 1));
        assert(y@.skip(i as int).drop_first() =~= y@.skip(i + 1));
        i += 1;
    }
}

/// Whether every character of `v` is a digit.
fn all_digit_chars(v: &Vec<char>) -> (r: bool)
    ensures
        r == all_digits(v@),
{
    let mut i: usize = 0;
    while i < v.len()
        invariant
            i <= v.len(),
            forall|k: int| 0 <= k < i ==> is_digit(#[trigger] v@[k]),
        decreases v.len() - i,
    {
        if !('0' <= v[i] && v[i] <= '9') {
            return false;
        }
        i += 1;
    }
    true
}

/// The number the digits of `s` write, capped at `cap`.
fn digits_capped(s: &Vec<char>, cap: u64) -> (r: u64)
    requires
        all_digits(s@),
        cap <= EXPONENT_LIMIT,
    ensures
        r == (if digits_value(s@) >= cap {
            cap as nat
        } else {
            digits_value(s@)
        }),
{
    let mut acc: u64 = 0;
    let mut i: usize = 0;
    while i < s.len()
        invariant
            i <= s.len(),
            all_digits(s@),
            cap <= EXPONENT_LIMIT,
            acc == (if digits_value(s@.take(i as int)) >= cap {
                cap as nat
            } else {
                digits_value(s@.take(i as int))
            }),
        decreases s.len() - i,
    {
        let c = s[i];
        assert(is_digit(s@[i as int]));
        let d = (c as u32 - '0' as u32) as u64;
        let ghost prev = s@.take(i as int);
        let ghost next = s@.take(i + 1);
        assert(next.drop_last() =~= prev);
        let ghost pv = digits_value(prev);
        assert(digits_value(next) == pv * 10 + d);
        if acc >= cap {
            assert(pv * 10 + d >= cap) by (nonlinear_arith)
                requires
                    pv >= cap,
            ;
        } else {
            let t = acc * 10 + d;
            acc = if t >= cap {
                cap
            } else {
                t
            };
        }
        i += 1;
    }
    assert(s@.take(i as int) =~= s@);
    acc
}

/// The exponent a text writes, capped.
fn exponent_value(et: &Vec<char>) -> (r: Option<i128>)
    ensures
        match exponent_of(et@) {
            Some(e) => r == Some(e as i128),
            None => r is None,
        },
{
    let neg = et.len() > 0 && et[0] == '-';
    let start: usize = if et.len() > 0 && (et[0] == '-' || et[0] == '+') {
        1
    } else {
        0
    };
    let ed = sub_vec(et, start, et.len());
    assert(ed@ =~= (if et.len() > 0 && (et[0] == '-' || et[0] == '+') {
        et@.drop_first()
    } else {
        et@
    }));
    if ed.len() == 0 || !all_digit_chars(&ed) {
        return None;
    }
    let m = digits_capped(&ed, EXPONENT_LIMIT) as i128;
    if neg {
        Some(-m)
    } else {
        Some(m)
    }
}

/// How many `0`s `d` starts with.
fn count_lead_zeros(d: &Vec<char>) -> (r: usize)
    ensures
        r == lead_zeros(d@),
{
    let mut i: usize = 0;
    assert(d@.skip(0) =~= d@);
    while i < d.len() && d[i] == '0'
        invariant
            i <= d.len(),
            lead_zeros(d@) == i + lead_zeros(d@.skip(i as int)),
        decreases d.len() - i,
    {
        assert(d@.skip(i as int).drop_first() =~= d@.skip(i + 1));
        i += 1;
    }
    i
}

/// How many `0`s `d` ends with.
fn count_trail_zeros(d: &Vec<char>) -> (r: usize)
    ensures
        r == trail_zeros(d@),
        r <= d.len(),
{
    let mut t: usize = 0;
    assert(d@.take(d.len() as int) =~= d@);
    while t < d.len() && d[d.len() - 1 - t] == '0'
        invariant
            t <= d.len(),
            trail_zeros(d@) == t + trail_zeros(d@.take(d.len() - t)),
        decreases d.len() - t,
    {
        assert(d@.take(d.len() - t).drop_last() =~= d@.take(d.len() - t - 1));
        t += 1;
    }
    t
}

proof fn lemma_trail_zeros_bound(d: Seq<char>, k: int)
    requires
        0 <= k < d.len(),
        d[k] != '0',
    ensures
        trail_zeros(d) <= d.len() - k - 1,
    decreases d.len(),
{
    if d.last() == '0' {
        assert(d.drop_last()[k] == d[k]);
        lemma_trail_zeros_bound(d.drop_last(), k);
    }
}

proof fn lemma_lead_zeros_bound(d: Seq<char>)
    ensures
        0 <= lead_zeros(d) <= d.len(),
        lead_zeros(d) < d.len() ==> d[lead_zeros(d)] != '0',
    decreases d.len(),
{
    if d.len() > 0 && d[0] == '0' {
        lemma_lead_zeros_bound(d.drop_first());
        if lead_zeros(d) < d.len() {
            assert(d[lead_zeros(d)] == d.drop_first()[lead_zeros(d) - 1]);
        }
    }
}

/// Where the exponent mark of `body` is.
fn exp_mark(body: &Vec<char>) -> (r: usize)
    ensures
        r as int == exp_index(body@),
        r <= body.len(),
{
    let ia = find_char(body, 0, 'e');
    let ib = find_char(body, 0, 'E');
    assert(body@.skip(0) =~= body@);
    proof {
        lemma_first_index(body@, 'e');
        lemma_first_index(body@, 'E');
    }
    if ia < ib {
        ia
    } else {
        ib
    }
}

/// The integer and fraction digits of the mantissa `body[..ei]`.
fn mantissa(body: &Vec<char>, ei: usize) -> (r: (Vec<char>, Vec<char>))
    requires
        ei <= body.len(),
    ensures
        ({
            let mant = body@.take(ei as int);
            let parts = match split_once(mant, '.') {
                Some(p) => p,
                None => (mant, Seq::<char>::empty()),
            };
            r.0@ == parts.0 && r.1@ == parts.1
        }),
{
    let mant = sub_vec(body, 0, ei);
    assert(mant@ =~= body@.take(ei as int));
    match cut(&mant, '.') {
        Some((a, b)) => (a, b),
        None => {
            let e: Vec<char> = Vec::new();
            assert(e@ =~= Seq::<char>::empty());
            let a = sub_vec(&mant, 0, mant.len());
            assert(a@ =~= mant@);
            (a, e)
        },
    }
}

/// The exponent after the mark at `ei`, zero when there is none.
fn exponent_after(body: &Vec<char>, ei: usize) -> (r: Option<i128>)
    requires
        ei <= body.len(),
    ensures
        ei >= body.len() ==> r == Some(0i128),
        ei < body.len() ==> match exponent_of(body@.skip(ei + 1)) {
            Some(e) => r == Some(e as i128),
            None => r is None,
        },
{
    if ei >= body.len() {
        Some(0)
    } else {
        let et = sub_vec(body, ei + 1, body.len());
        assert(et@ =~= body@.skip(ei + 1));
        exponent_value(&et)
    }
}

/// `a` followed by `b`.
fn joined(a: &Vec<char>, b: &Vec<char>) -> (r: Vec<char>)
    ensures
        r@ == a@ + b@,
{
    let mut d = sub_vec(a, 0, a.len());
    assert(d@ =~= a@);
    let mut j: usize = 0;
    while j < b.len()
        invariant
            j <= b.len(),
            d@ == a@ + b@.take(j as int),
        decreases b.len() - j,
    {
        d.push(b[j]);
        assert(d@ =~= a@ + b@.take(j + 1));
        j += 1;
    }
    assert(b@.take(j as int) =~= b@);
    d
}

/// The parts of the number that `v` writes.
fn number_parts(v: &Vec<char>) -> (r: Option<(bool, Vec<char>, usize, i128)>)
    ensures
        match decimal_parts(v@) {
            Some(p) => match r {
                Some(q) => q.0 == p.0 && q.1@ == p.1 && q.2 as int == p.2 && q.3 as int == p.3,
                None => false,
            },
            None => r is None,
        },
{
    let neg = v.len() > 0 && v[0] == '-';
    let b0: usize = if v.len() > 0 && (v[0] == '-' || v[0] == '+') {
        1
    } else {
        0
    };
    let body = sub_vec(v, b0, v.len());
    assert(body@ =~= (if v.len() > 0 && (v[0] == '-' || v[0] == '+') {
        v@.drop_first()
    } else {
        v@
    }));
    let ei = exp_mark(&body);
    let (intd, fracd) = mantissa(&body, ei);
    let e = match exponent_after(&body, ei) {
        Some(e) => e,
        None => {
            return None;
        },
    };
    if !all_digit_chars(&intd) || !all_digit_chars(&fracd) || intd.len() + fracd.len() == 0 {
        return None;
    }
    let d = joined(&intd, &fracd);
    Some((neg, d, intd.len(), e))
}

/// The quality that the `q` value `v` gives.
pub fn quality_value(v: &Vec<char>) -> (r: Quality)
    ensures
        r@ == quality_of_text(v@),
{
    let (neg, d, p, e) = match number_parts(v) {
        Some(parts) => parts,
        None => {
            return Quality::full();
        },
    };
    let k = count_lead_zeros(&d);
    proof {
        lemma_lead_zeros_bound(d@);
    }
    if k >= d.len() {
        return Quality::zero();
    }
    if neg {
        return Quality::full();
    }
    let t = count_trail_zeros(&d);
    proof {
        lemma_trail_zeros_bound(d@, k as int);
    }
    let sig = sub_vec(&d, k, d.len() - t);
    let x: i128 = p as i128 + e - k as i128;
    let one = sig.len() == 1 && sig[0] == '1';
    proof {
        if sig@.len() == 1 && sig@[0] == '1' {
            assert(sig@ =~= seq!['1']);
        }
    }
    if x < 1 || (x == 1 && one) {
        Quality { positive: true, exponent: x, digits: sig }
    } else {
        Quality::full()
    }
}

} // verus!
