//! Reading the raw score out of the perceptual-quality tool's text output.
use vstd::prelude::*;
use vstd::string::StringSliceAdditionalSpecFns;
use crate::decimal::{
    all_digits, decimal_value, first_index, is_decimal, is_digit, parse_fixed,
};

verus! {

/// The pattern whose first match in the tool's output is the raw score.
pub const SCORE_PATTERN: &'static str = "([0-9]*\\.[0-9]*)";

/// Decimal places kept of a raw score (scores count millionths).
pub const SCORE_PLACES: usize = 6;

/// Why no raw score could be read from the tool's output.
#[derive(Debug, Clone, Copy, PartialEq, Eq, Structural)]
pub enum ScoreError {
    /// The output holds no decimal point, so no score at all.
    NoScore,
    /// The first match holds no digit, or a number too large to count.
    Malformed,
}

/// `s[start..end]` is the leftmost match of `SCORE_PATTERN` in `s`: the first
/// point with the whole digit runs on either side of it.
pub open spec fn is_score_match(s: Seq<u8>, start: int, end: int) -> bool {
    let dot = first_index(s, 46);
    &&& dot < s.len()
    &&& 0 <= start <= dot < end <= s.len()
    &&& all_digits(s.subrange(start, dot))
    &&& (start == 0 || !is_digit(s[start - 1]))
    &&& all_digits(s.subrange(dot + 1, end))
    &&& (end == s.len() || !is_digit(s[end]))
}

/// The text of the leftmost match of `SCORE_PATTERN` in `s`.
pub open spec fn score_text(s: Seq<u8>) -> Seq<u8> {
    let p = choose|p: (int, int)| is_score_match(s, p.0, p.1);
    s.subrange(p.0, p.1)
}

/// The raw score (in millionths) that the tool's output `s` reports.
pub open spec fn score_of_output(s: Seq<u8>) -> Result<u64, ScoreError> {
    if first_index(s, 46) == s.len() {
        Err(ScoreError::NoScore)
    } else if is_decimal(score_text(s)) && decimal_value(score_text(s), SCORE_PLACES as nat)
        <= u64::MAX {
        Ok(decimal_value(score_text(s), SCORE_PLACES as nat) as u64)
    } else {
        Err(ScoreError::Malformed)
    }
}

/// Relies on regex::bytes::Regex::new and Regex::find: the first match of
/// `SCORE_PATTERN`, leftmost, with its greedy digit runs taken whole; there
/// is a match exactly where the output holds a point.
#[verifier::external_body]
fn find_score_match(output: &[u8]) -> (r: Option<(usize, usize)>)
    ensures
        r is None <==> first_index(output@, 46) == output@.len(),
        r matches Some(p) ==> is_score_match(output@, p.0 as int, p.1 as int),
{
    regex::bytes::Regex::new(SCORE_PATTERN).unwrap().find(output).map(|m| (m.start(), m.end()))
}

proof fn lemma_score_match_unique(s: Seq<u8>, a: int, b: int, c: int, d: int)
    requires
        is_score_match(s, a, b),
        is_score_match(s, c, d),
    ensures
        a == c,
        b == d,
{
    let dot = first_index(s, 46);
    if a < c {
        assert(is_digit(s.subrange(a, dot)[c - 1 - a]));
    } else if c < a {
        assert(is_digit(s.subrange(c, dot)[a - 1 - c]));
    }
    if b < d {
        assert(is_digit(s.subrange(dot + 1, d)[b - dot - 1]));
    } else if d < b {
        assert(is_digit(s.subrange(dot + 1, b)[d - dot - 1]));
    }
}

/// Reads the raw score, in millionths, from the quality tool's output, as
/// text: the first number of the form `digits.digits` (digits past the
/// sixth decimal place are cut off). Output that is no text (not UTF-8)
/// cannot reach this function; the caller reports it when decoding.
pub fn parse_score(output: &str) -> (r: Result<u64, ScoreError>)
    ensures
        r == score_of_output(output.spec_bytes()),
{
    let bytes = output.as_bytes();
    match find_score_match(bytes) {
        None => Err(ScoreError::NoScore),
        Some((a, b)) => {
            proof {
                let p = choose|p: (int, int)| is_score_match(bytes@, p.0, p.1);
                assert(is_score_match(bytes@, a as int, b as int));
                lemma_score_match_unique(bytes@, a as int, b as int, p.0, p.1);
            }
            let text = &bytes[a..b];
            match parse_fixed(text, SCORE_PLACES) {
                Some(v) => Ok(v),
                None => Err(ScoreError::Malformed),
            }
        },
    }
}

} // verus!
