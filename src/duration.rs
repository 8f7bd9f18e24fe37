//! Reading an audio file's duration from the media prober's report.
use vstd::prelude::*;
use vstd::string::StringSliceAdditionalSpecFns;
use crate::decimal::{
    all_digits, decimal_value, digits_value, find_byte, first_index, is_decimal,
    lemma_decimal_value_nonneg, lemma_digits_value_nonneg, parse_fixed, parse_natural,
};
use crate::setup::bytes_equal;

verus! {

/// The text that opens the duration in the prober's report.
pub const DURATION_LABEL: &'static str = "Duration: ";

/// The text that follows the duration in the prober's report.
pub const DURATION_END: &'static str = ", start";

/// `pat` occurs in `s` at position `i`.
pub open spec fn occurs_at(s: Seq<u8>, pat: Seq<u8>, i: int) -> bool {
    &&& 0 <= i
    &&& i + pat.len() <= s.len()
    &&& s.subrange(i, i + pat.len()) == pat
}

/// `i` is the first position where `pat` occurs in `s`.
pub open spec fn is_first_occurrence(s: Seq<u8>, pat: Seq<u8>, i: int) -> bool {
    &&& occurs_at(s, pat, i)
    &&& forall|j: int| 0 <= j < i ==> !occurs_at(s, pat, j)
}

/// The first position where `pat` occurs in `s`, if it occurs.
pub open spec fn first_occurrence(s: Seq<u8>, pat: Seq<u8>) -> Option<int> {
    if exists|i: int| is_first_occurrence(s, pat, i) {
        Some(choose|i: int| is_first_occurrence(s, pat, i))
    } else {
        None
    }
}

/// The first position where `pat` occurs in `s`, if it occurs.
pub fn find_pattern(s: &[u8], pat: &[u8]) -> (r: Option<usize>)
    ensures
        r matches Some(i) ==> first_occurrence(s@, pat@) == Some(i as int) && is_first_occurrence(
            s@,
            pat@,
            i as int,
        ),
        r is None ==> first_occurrence(s@, pat@) is None,
{
    if pat.len() > s.len() {
        assert forall|i: int| !is_first_occurrence(s@, pat@, i) by {}
        return None;
    }
    if pat.len() == 0 {
        assert(s@.subrange(0, 0) =~= pat@);
        assert(is_first_occurrence(s@, pat@, 0));
        return Some(0);
    }
    let last = s.len() - pat.len();
    let mut i: usize = 0;
    while i <= last
        invariant
            pat@.len() >= 1,
            s@.len() <= usize::MAX,
            last == s@.len() - pat@.len(),
            i <= last + 1,
            forall|j: int| 0 <= j < i ==> !occurs_at(s@, pat@, j),
        decreases last + 1 - i,
    {
        if bytes_equal(&s[i..i + pat.len()], pat) {
            proof {
                assert(is_first_occurrence(s@, pat@, i as int));
                let c = choose|c: int| is_first_occurrence(s@, pat@, c);
                if c < i {
                    assert(!occurs_at(s@, pat@, c));
                } else if i < c {
                    assert(!occurs_at(s@, pat@, i as int));
                }
            }
            return Some(i);
        }
        i = i + 1;
    }
    assert forall|j: int| !is_first_occurrence(s@, pat@, j) by {
        if 0 <= j < i {
        }
    }
    None
}

/// The text between the duration's label and what follows it.
pub open spec fn duration_field(s: Seq<u8>) -> Option<Seq<u8>> {
    let a = first_occurrence(s, DURATION_LABEL.spec_bytes());
    let b = first_occurrence(s, DURATION_END.spec_bytes());
    if a is Some && b is Some && a->0 + DURATION_LABEL.spec_bytes().len() <= b->0 {
        Some(s.subrange(a->0 + DURATION_LABEL.spec_bytes().len(), b->0))
    } else {
        None
    }
}

/// A clock reading `hours:minutes:seconds` in milliseconds (fields past the
/// third, and digits past the milliseconds, are ignored).
pub open spec fn clock_millis(f: Seq<u8>) -> Option<int> {
    let c1 = first_index(f, 58);
    let rest1 = f.skip(c1 + 1);
    let c2 = first_index(rest1, 58);
    let rest2 = rest1.skip(c2 + 1);
    let h = f.take(c1);
    let m = rest1.take(c2);
    let sec = rest2.take(first_index(rest2, 58));
    if c1 < f.len() && c2 < rest1.len() && h.len() >= 1 && all_digits(h) && m.len() >= 1
        && all_digits(m) && is_decimal(sec) {
        Some(digits_value(h) * 3_600_000 + digits_value(m) * 60_000 + decimal_value(sec, 3))
    } else {
        None
    }
}

/// The duration, in milliseconds, that the prober's report `s` gives.
pub open spec fn duration_millis(s: Seq<u8>) -> Option<int> {
    match duration_field(s) {
        Some(f) => clock_millis(f),
        None => None,
    }
}

/// Reads the duration in milliseconds from the prober's report: the clock
/// reading between `Duration: ` and `, start`. `None` where there is none,
/// it is malformed, or it exceeds `u64::MAX` milliseconds.
pub fn parse_duration(output: &[u8]) -> (r: Option<u64>)
    ensures
        r == (match duration_millis(output@) {
            Some(v) => if v <= u64::MAX {
                Some(v as u64)
            } else {
                None
            },
            None => None,
        }),
{
    let label = DURATION_LABEL.as_bytes();
    let end = DURATION_END.as_bytes();
    let a = match find_pattern(output, label) {
        Some(a) => a,
        None => {
            return None;
        },
    };
    let b = match find_pattern(output, end) {
        Some(b) => b,
        None => {
            return None;
        },
    };
    if b < label.len() || a > b - label.len() {
        return None;
    }
    let field = &output[a + label.len()..b];
    match clock_value(field) {
        Some(v) => Some(v),
        None => None,
    }
}

/// A clock reading `hours:minutes:seconds` in milliseconds; `None` where it
/// is malformed or exceeds `u64::MAX`.
pub fn clock_value(f: &[u8]) -> (r: Option<u64>)
    ensures
        r == (match clock_millis(f@) {
            Some(v) => if v <= u64::MAX {
                Some(v as u64)
            } else {
                None
            },
            None => None,
        }),
{
    let c1 = find_byte(f, 58);
    if c1 == f.len() {
        return None;
    }
    let rest1 = &f[c1 + 1..f.len()];
    let c2 = find_byte(rest1, 58);
    if c2 == rest1.len() {
        return None;
    }
    let rest2 = &rest1[c2 + 1..rest1.len()];
    let c3 = find_byte(rest2, 58);
    let hours_text = &f[0..c1];
    let minutes_text = &rest1[0..c2];
    let seconds_text = &rest2[0..c3];
    let ghost h = f@.take(c1 as int);
    let ghost m = rest1@.take(c2 as int);
    let ghost sec = rest2@.take(c3 as int);
    proof {
        assert(rest1@ =~= f@.skip(c1 + 1));
        assert(rest2@ =~= rest1@.skip(c2 + 1));
        assert(hours_text@ =~= h);
        assert(minutes_text@ =~= m);
        assert(seconds_text@ =~= sec);
    }
    let hours = parse_natural(hours_text);
    let minutes = parse_natural(minutes_text);
    let seconds = parse_fixed(seconds_text, 3);
    let (hv, mv, sv) = match (hours, minutes, seconds) {
        (Some(hv), Some(mv), Some(sv)) => (hv, mv, sv),
        _ => {
            proof {
                if clock_millis(f@) is Some {
                    lemma_digits_value_nonneg(h);
                    lemma_digits_value_nonneg(m);
                    lemma_decimal_value_nonneg(sec, 3);
                    let total = clock_millis(f@)->0;
                    assert(total > u64::MAX) by (nonlinear_arith)
                        requires
                            total == digits_value(h) * 3_600_000 + digits_value(m) * 60_000
                                + decimal_value(sec, 3),
                            digits_value(h) >= 0,
                            digits_value(m) >= 0,
                            decimal_value(sec, 3) >= 0,
                            digits_value(h) > u64::MAX || digits_value(m) > u64::MAX
                                || decimal_value(sec, 3) > u64::MAX,
                    ;
                }
            }
            return None;
        },
    };
    assert(hv * 3_600_000u128 + mv * 60_000u128 + sv <= 0xffff_ffff_ffff_ffffu128 * 3_660_001)
        by (nonlinear_arith)
        requires
            hv <= 0xffff_ffff_ffff_ffffu64,
            mv <= 0xffff_ffff_ffff_ffffu64,
            sv <= 0xffff_ffff_ffff_ffffu64,
    ;
    let total = hv as u128 * 3_600_000 + mv as u128 * 60_000 + sv as u128;
    proof {
        lemma_digits_value_nonneg(h);
        lemma_digits_value_nonneg(m);
        lemma_decimal_value_nonneg(sec, 3);
    }
    if total > u64::MAX as u128 {
        None
    } else {
        Some(total as u64)
    }
}

} // verus!
