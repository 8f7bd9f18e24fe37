//! Decimal text (`digits`, `digits.digits`) read as fixed-point integers.
use vstd::prelude::*;

verus! {

pub open spec fn is_digit(b: u8) -> bool {
    48 <= b <= 57
}

pub open spec fn all_digits(s: Seq<u8>) -> bool {
    forall|i: int| 0 <= i < s.len() ==> is_digit(#[trigger] s[i])
}

/// The number that a run of decimal digits spells, most significant first.
pub open spec fn digits_value(s: Seq<u8>) -> int
    decreases s.len(),
{
    if s.len() == 0 {
        0
    } else {
        digits_value(s.drop_last()) * 10 + (s.last() - 48)
    }
}

pub open spec fn pow10(n: nat) -> int
    decreases n,
{
    if n == 0 {
        1
    } else {
        10 * pow10((n - 1) as nat)
    }
}

/// `d` is the position of the first `b` in `s`, or `s.len()` where there is none.
pub open spec fn is_first_at(s: Seq<u8>, b: u8, d: int) -> bool {
    &&& 0 <= d <= s.len()
    &&& d < s.len() ==> s[d] == b
    &&& forall|j: int| 0 <= j < d ==> s[j] != b
}

/// The position of the first `b` in `s`, or `s.len()` where there is none.
pub open spec fn first_index(s: Seq<u8>, b: u8) -> int {
    choose|d: int| is_first_at(s, b, d)
}

pub open spec fn min_nat(a: nat, b: nat) -> nat {
    if a <= b {
        a
    } else {
        b
    }
}

/// The part of a decimal text before its point (all of it where it has none).
pub open spec fn whole_part(t: Seq<u8>) -> Seq<u8> {
    t.take(first_index(t, 46))
}

/// The part of a decimal text after its point (empty where it has none).
pub open spec fn fraction_part(t: Seq<u8>) -> Seq<u8> {
    let d = first_index(t, 46);
    if d < t.len() {
        t.skip(d + 1)
    } else {
        Seq::empty()
    }
}

/// Digits around at most one point, with at least one digit in all.
pub open spec fn is_decimal(t: Seq<u8>) -> bool {
    &&& all_digits(whole_part(t))
    &&& all_digits(fraction_part(t))
    &&& whole_part(t).len() + fraction_part(t).len() >= 1
}

/// The first `places` digits of a fraction, as a count of `10^-places` units.
pub open spec fn fraction_units(f: Seq<u8>, places: nat) -> int {
    let k = min_nat(f.len(), places);
    digits_value(f.take(k as int)) * pow10((places - k) as nat)
}

/// A decimal text in units of `10^-places`, further digits cut off.
pub open spec fn decimal_value(t: Seq<u8>, places: nat) -> int {
    digits_value(whole_part(t)) * pow10(places) + fraction_units(fraction_part(t), places)
}

pub proof fn lemma_first_index_unique(s: Seq<u8>, b: u8, d: int)
    requires
        is_first_at(s, b, d),
    ensures
        first_index(s, b) == d,
{
    let c = first_index(s, b);
    assert(is_first_at(s, b, c));
    if c < d {
        assert(s[c] != b);
    } else if d < c {
        assert(s[d] != b);
    }
}

pub proof fn lemma_digits_value_nonneg(s: Seq<u8>)
    requires
        all_digits(s),
    ensures
        digits_value(s) >= 0,
    decreases s.len(),
{
    if s.len() > 0 {
        lemma_digits_value_nonneg(s.drop_last());
    }
}

/// A prefix of a digit run never spells more than the run.
pub proof fn lemma_digits_value_prefix(s: Seq<u8>, k: int)
    requires
        all_digits(s),
        0 <= k <= s.len(),
    ensures
        digits_value(s.take(k)) <= digits_value(s),
    decreases s.len(),
{
    if k < s.len() {
        let p = s.drop_last();
        lemma_digits_value_prefix(p, k);
        assert(p.take(k) =~= s.take(k));
        lemma_digits_value_nonneg(p);
    } else {
        assert(s.take(k) =~= s);
    }
}

pub proof fn lemma_digits_value_step(s: Seq<u8>, i: int)
    requires
        0 <= i < s.len(),
    ensures
        digits_value(s.take(i + 1)) == digits_value(s.take(i)) * 10 + (s[i] - 48),
{
    assert(s.take(i + 1).drop_last() =~= s.take(i));
}

pub proof fn lemma_pow10_positive(n: nat)
    ensures
        pow10(n) >= 1,
    decreases n,
{
    if n > 0 {
        lemma_pow10_positive((n - 1) as nat);
    }
}

/// The digits `s[lo..hi]` as a number, or `None` where a byte there is no
/// digit or the number exceeds `u64::MAX`.
pub fn digits_number(s: &[u8], lo: usize, hi: usize) -> (r: Option<u64>)
    requires
        lo <= hi <= s@.len(),
    ensures
        r == (if all_digits(s@.subrange(lo as int, hi as int)) && digits_value(
            s@.subrange(lo as int, hi as int),
        ) <= u64::MAX {
            Some(digits_value(s@.subrange(lo as int, hi as int)) as u64)
        } else {
            None
        }),
{
    let ghost t = s@.subrange(lo as int, hi as int);
    let mut value: u64 = 0;
    let mut i: usize = lo;
    while i < hi
        invariant
            lo <= i <= hi <= s@.len(),
            t == s@.subrange(lo as int, hi as int),
            all_digits(t.take(i - lo)),
            value == digits_value(t.take(i - lo)),
        decreases hi - i,
    {
        let b = s[i];
        proof {
            lemma_digits_value_step(t, i - lo);
        }
        if b < 48 || b > 57 {
            assert(!is_digit(t[i - lo]));
            return None;
        }
        assert(all_digits(t.take(i - lo + 1)));
        let d = (b - 48) as u64;
        match value.checked_mul(10) {
            Some(v10) => match v10.checked_add(d) {
                Some(v) => {
                    value = v;
                },
                None => {
                    proof {
                        lemma_none_after_overflow(s@, lo as int, hi as int, i - lo + 1);
                    }
                    return None;
                },
            },
            None => {
                proof {
                    lemma_digits_value_nonneg(t.take(i - lo));
                    lemma_none_after_overflow(s@, lo as int, hi as int, i - lo + 1);
                }
                return None;
            },
        }
        i = i + 1;
    }
    assert(t.take(i - lo) =~= t);
    Some(value)
}

proof fn lemma_none_after_overflow(s: Seq<u8>, lo: int, hi: int, k: int)
    requires
        0 <= lo <= hi <= s.len(),
        0 <= k <= hi - lo,
        all_digits(s.subrange(lo, hi).take(k)),
        digits_value(s.subrange(lo, hi).take(k)) > u64::MAX,
    ensures
        !(all_digits(s.subrange(lo, hi)) && digits_value(s.subrange(lo, hi)) <= u64::MAX),
{
    let t = s.subrange(lo, hi);
    if all_digits(t) {
        lemma_digits_value_prefix(t, k);
    }
}


/// Whether every byte of `s[lo..hi]` is a decimal digit.
pub fn digits_only(s: &[u8], lo: usize, hi: usize) -> (r: bool)
    requires
        lo <= hi <= s@.len(),
    ensures
        r == all_digits(s@.subrange(lo as int, hi as int)),
{
    let mut i: usize = lo;
    while i < hi
        invariant
            lo <= i <= hi <= s@.len(),
            forall|j: int| lo <= j < i ==> is_digit(s@[j]),
        decreases hi - i,
    {
        if s[i] < 48 || s[i] > 57 {
            assert(!is_digit(s@.subrange(lo as int, hi as int)[i - lo]));
            return false;
        }
        i = i + 1;
    }
    assert forall|j: int| 0 <= j < hi - lo implies is_digit(
        #[trigger] s@.subrange(lo as int, hi as int)[j],
    ) by {
        assert(is_digit(s@[lo + j]));
    }
    true
}

/// The position of the first `b` in `s`, or `s.len()` where there is none.
pub fn find_byte(s: &[u8], b: u8) -> (r: usize)
    ensures
        r == first_index(s@, b),
        is_first_at(s@, b, r as int),
{
    let mut i: usize = 0;
    while i < s.len()
        invariant
            i <= s@.len(),
            forall|j: int| 0 <= j < i ==> s@[j] != b,
        decreases s@.len() - i,
    {
        if s[i] == b {
            proof {
                lemma_first_index_unique(s@, b, i as int);
            }
            return i;
        }
        i = i + 1;
    }
    proof {
        lemma_first_index_unique(s@, b, i as int);
    }
    i
}

pub proof fn lemma_pow10_add(a: nat, b: nat)
    ensures
        pow10(a + b) == pow10(a) * pow10(b),
    decreases a,
{
    if a > 0 {
        lemma_pow10_add((a - 1) as nat, b);
        assert(pow10(a + b) == 10 * pow10((a - 1 + b) as nat));
        assert(10 * (pow10((a - 1) as nat) * pow10(b)) == (10 * pow10((a - 1) as nat)) * pow10(b))
            by (nonlinear_arith);
    }
}

pub proof fn lemma_digits_value_bound(s: Seq<u8>)
    requires
        all_digits(s),
    ensures
        0 <= digits_value(s) < pow10(s.len()),
    decreases s.len(),
{
    if s.len() > 0 {
        let p = s.drop_last();
        lemma_digits_value_bound(p);
        assert(pow10(s.len()) == 10 * pow10(p.len()));
    }
}

pub proof fn lemma_decimal_value_nonneg(t: Seq<u8>, places: nat)
    requires
        is_decimal(t),
    ensures
        decimal_value(t, places) >= 0,
{
    let f = fraction_part(t);
    let k = min_nat(f.len(), places);
    assert(all_digits(f.take(k as int)));
    lemma_digits_value_nonneg(whole_part(t));
    lemma_digits_value_nonneg(f.take(k as int));
    lemma_pow10_positive(places);
    lemma_pow10_positive((places - k) as nat);
    assert(digits_value(whole_part(t)) * pow10(places) >= 0) by (nonlinear_arith)
        requires
            digits_value(whole_part(t)) >= 0,
            pow10(places) >= 1,
    ;
    assert(digits_value(f.take(k as int)) * pow10((places - k) as nat) >= 0) by (nonlinear_arith)
        requires
            digits_value(f.take(k as int)) >= 0,
            pow10((places - k) as nat) >= 1,
    ;
}

/// Ten to the power `n`.
pub fn pow10_u64(n: usize) -> (r: u64)
    requires
        n <= 19,
    ensures
        r == pow10(n as nat),
{
    assert(pow10(19) == 10_000_000_000_000_000_000) by {
        reveal_with_fuel(pow10, 20);
    }
    let mut r: u64 = 1;
    let mut i: usize = 0;
    while i < n
        invariant
            i <= n <= 19,
            r == pow10(i as nat),
            pow10(19) == 10_000_000_000_000_000_000,
        decreases n - i,
    {
        proof {
            lemma_pow10_add((i + 1) as nat, (18 - i) as nat);
            lemma_pow10_positive((i + 1) as nat);
            lemma_pow10_positive((18 - i) as nat);
            assert(pow10((i + 1) as nat) <= pow10((i + 1) as nat) * pow10((18 - i) as nat))
                by (nonlinear_arith)
                requires
                    pow10((i + 1) as nat) >= 1,
                    pow10((18 - i) as nat) >= 1,
            ;
        }
        r = r * 10;
        i = i + 1;
    }
    r
}

/// A non-empty run of digits read as a number; `None` where the text is
/// anything else or the number exceeds `u64::MAX`.
pub fn parse_natural(t: &[u8]) -> (r: Option<u64>)
    ensures
        r == (if t@.len() >= 1 && all_digits(t@) && digits_value(t@) <= u64::MAX {
            Some(digits_value(t@) as u64)
        } else {
            None
        }),
{
    assert(t@.subrange(0, t@.len() as int) =~= t@);
    if t.len() == 0 {
        return None;
    }
    digits_number(t, 0, t.len())
}

/// The fraction digits `t[fs..]` as a count of `10^-places` units, or
/// `None` where a byte there is no digit.
fn fraction_value(t: &[u8], fs: usize, places: usize) -> (r: Option<u64>)
    requires
        fs <= t@.len(),
        places <= 19,
    ensures
        r == (if all_digits(t@.skip(fs as int)) {
            Some(fraction_units(t@.skip(fs as int), places as nat) as u64)
        } else {
            None
        }),
        r is Some ==> 0 <= fraction_units(t@.skip(fs as int), places as nat) < pow10(
            places as nat,
        ),
{
    let ghost f = t@.skip(fs as int);
    let fe: usize = t.len();
    let fl: usize = fe - fs;
    let k: usize = if fl < places {
        fl
    } else {
        places
    };
    proof {
        assert(f =~= t@.subrange(fs as int, fe as int));
        assert(f.take(k as int) =~= t@.subrange(fs as int, (fs + k) as int));
        lemma_pow10_positive((places - k) as nat);
        lemma_pow10_positive(k as nat);
    }
    let head_ok = digits_only(t, fs, fs + k);
    let tail_ok = digits_only(t, fs + k, fe);
    proof {
        if all_digits(f) {
            assert forall|j: int| 0 <= j < k implies is_digit(
                #[trigger] t@.subrange(fs as int, (fs + k) as int)[j],
            ) by {
                assert(is_digit(f[j]));
            }
            assert forall|j: int| 0 <= j < fe - fs - k implies is_digit(
                #[trigger] t@.subrange((fs + k) as int, fe as int)[j],
            ) by {
                assert(is_digit(f[k + j]));
            }
        }
        if head_ok && tail_ok {
            assert forall|j: int| 0 <= j < f.len() implies is_digit(#[trigger] f[j]) by {
                if j < k {
                    assert(is_digit(t@.subrange(fs as int, (fs + k) as int)[j]));
                } else {
                    assert(is_digit(t@.subrange((fs + k) as int, fe as int)[j - k]));
                }
            }
        }
    }
    if !(head_ok && tail_ok) {
        return None;
    }
    proof {
        lemma_digits_value_bound(f.take(k as int));
        lemma_pow10_add(k as nat, (19 - k) as nat);
        lemma_pow10_add(k as nat, (places - k) as nat);
        lemma_pow10_positive((19 - k) as nat);
        assert(pow10(19) == 10_000_000_000_000_000_000) by {
            reveal_with_fuel(pow10, 20);
        }
        assert(pow10(k as nat) <= pow10(k as nat) * pow10((19 - k) as nat)) by (nonlinear_arith)
            requires
                pow10((19 - k) as nat) >= 1,
                pow10(k as nat) >= 1,
        ;
        assert(0 <= digits_value(f.take(k as int)) * pow10((places - k) as nat) < pow10(k as nat)
            * pow10((places - k) as nat)) by (nonlinear_arith)
            requires
                0 <= digits_value(f.take(k as int)) < pow10(k as nat),
                pow10((places - k) as nat) >= 1,
        ;
    }
    let units = match digits_number(t, fs, fs + k) {
        Some(u) => u,
        None => {
            return None;
        },
    };
    let unit_scale = pow10_u64(places - k);
    proof {
        lemma_pow10_add(places as nat, (19 - places) as nat);
        lemma_pow10_positive((19 - places) as nat);
        assert(pow10(places as nat) <= pow10(places as nat) * pow10((19 - places) as nat))
            by (nonlinear_arith)
            requires
                pow10((19 - places) as nat) >= 1,
                pow10(places as nat) >= 1,
        ;
    }
    Some(units * unit_scale)
}

/// A decimal text (`12`, `12.5`, `.5`, `12.`) in units of `10^-places`;
/// digits past `places` are cut off. `None` where the text is no decimal or
/// the value exceeds `u64::MAX`.
pub fn parse_fixed(t: &[u8], places: usize) -> (r: Option<u64>)
    requires
        places <= 19,
    ensures
        r == (if is_decimal(t@) && decimal_value(t@, places as nat) <= u64::MAX {
            Some(decimal_value(t@, places as nat) as u64)
        } else {
            None
        }),
{
    let d = find_byte(t, 46);
    let fs: usize = if d < t.len() {
        d + 1
    } else {
        t.len()
    };
    let ghost w = whole_part(t@);
    let ghost f = fraction_part(t@);
    proof {
        assert(w =~= t@.subrange(0, d as int));
        assert(f =~= t@.skip(fs as int));
        lemma_pow10_positive(places as nat);
    }
    let whole_ok = digits_only(t, 0, d);
    let frac = fraction_value(t, fs, places);
    if !whole_ok || d + (t.len() - fs) == 0 {
        return None;
    }
    let units = match frac {
        Some(u) => u,
        None => {
            return None;
        },
    };
    proof {
        lemma_digits_value_nonneg(w);
    }
    let whole = match digits_number(t, 0, d) {
        Some(v) => v,
        None => {
            assert(decimal_value(t@, places as nat) > u64::MAX) by (nonlinear_arith)
                requires
                    decimal_value(t@, places as nat) == digits_value(w) * pow10(places as nat)
                        + fraction_units(f, places as nat),
                    digits_value(w) > u64::MAX,
                    pow10(places as nat) >= 1,
                    fraction_units(f, places as nat) >= 0,
            ;
            return None;
        },
    };
    let scale = pow10_u64(places);
    assert(digits_value(w) * pow10(places as nat) >= 0) by (nonlinear_arith)
        requires
            digits_value(w) >= 0,
            pow10(places as nat) >= 1,
    ;
    let a = match whole.checked_mul(scale) {
        Some(a) => a,
        None => {
            return None;
        },
    };
    a.checked_add(units)
}

} // verus!
