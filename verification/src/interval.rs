use vstd::prelude::*;
use num::rational::ParseRatioError;
use num::{BigInt, BigRational};
use rust_decimal::Decimal;
use rust_decimal::Error as DecimalError;
use crate::error::Error;
use crate::text::{spec_is_whitespace, trim_start, is_whitespace};

verus! {

/// Whether rust_decimal reads the text `s` as a decimal number.
pub uninterp spec fn decimal_accepts(s: Seq<char>) -> bool;

/// The decimal number rust_decimal reads from the text `s`.
pub uninterp spec fn decimal_value(s: Seq<char>) -> Decimal;

/// Whether num reads the text `s` as a ratio of big integers.
pub uninterp spec fn ratio_accepts(s: Seq<char>) -> bool;

/// The ratio num reads from the text `s`.
pub uninterp spec fn ratio_value(s: Seq<char>) -> BigRational;

/// Reads `s` with rust_decimal's `Decimal::from_str`.
///
/// Claimed: success and the value depend on the text alone. What texts
/// are accepted and which number they give is left unsaid here.
#[verifier::external_body]
fn parse_decimal(s: &[char]) -> (r: Result<Decimal, DecimalError>)
    ensures
        r is Ok <==> decimal_accepts(s@),
        r matches Ok(d) ==> d == decimal_value(s@),
{
    let text: String = s.iter().collect();
    text.parse::<Decimal>()
}

/// Reads `s` with num's `Ratio::<BigInt>::from_str` (`numer/denom` or
/// `numer`, with a nonzero denominator).
///
/// Claimed: success and the value depend on the text alone. What texts
/// are accepted and which ratio they give is left unsaid here.
#[verifier::external_body]
fn parse_ratio(s: &[char]) -> (r: Result<BigRational, ParseRatioError>)
    ensures
        r is Ok <==> ratio_accepts(s@),
        r matches Ok(q) ==> q == ratio_value(s@),
{
    let text: String = s.iter().collect();
    text.parse::<BigRational>()
}

/// A step of a scale: a number of cents, or a frequency ratio.
#[derive(Debug)]
pub enum Interval {
    Cents(Decimal),
    Ratio(BigRational),
}

/// The characters of `s` up to its first whitespace.
pub open spec fn take_word(s: Seq<char>) -> Seq<char>
    decreases s.len(),
{
    if s.len() == 0 || spec_is_whitespace(s[0]) {
        Seq::empty()
    } else {
        seq![s[0]] + take_word(s.drop_first())
    }
}

/// The first whitespace-separated word of `s`, if there is one.
pub open spec fn first_word(s: Seq<char>) -> Option<Seq<char>> {
    let t = trim_start(s);
    if t.len() == 0 {
        None
    } else {
        Some(take_word(t))
    }
}

/// What reading an interval from the text `s` gives: the first word of
/// `s`, read as cents when it contains a period and as a ratio otherwise.
pub open spec fn interval_result(s: Seq<char>) -> Result<Interval, Error> {
    match first_word(s) {
        None => Err(Error::InvalidInterval),
        Some(w) => if w.contains('.') {
            if decimal_accepts(w) {
                Ok(Interval::Cents(decimal_value(w)))
            } else {
                Err(Error::InvalidCents)
            }
        } else {
            if ratio_accepts(w) {
                Ok(Interval::Ratio(ratio_value(w)))
            } else {
                Err(Error::InvalidRatio)
            }
        },
    }
}

proof fn lemma_contains_push(s: Seq<char>, c: char, x: char)
    ensures
        s.push(c).contains(x) == (s.contains(x) || c == x),
{
    if s.contains(x) {
        let k = choose|k: int| 0 <= k < s.len() && s[k] == x;
        assert(s.push(c)[k] == x);
    }
    if c == x {
        assert(s.push(c)[s.len() as int] == x);
    }
    if s.push(c).contains(x) {
        let k = choose|k: int| 0 <= k < s.push(c).len() && s.push(c)[k] == x;
        if k < s.len() {
            assert(s[k] == x);
        }
    }
}

impl Interval {
    /// Reads the interval that the first word of `s` gives.
    pub fn from_chars(s: &[char]) -> (r: Result<Self, Error>)
        ensures
            r == interval_result(s@),
    {
        let mut a: usize = 0;
        assert(s@.skip(0) =~= s@);
        while a < s.len() && is_whitespace(s[a])
            invariant
                a <= s.len(),
                trim_start(s@.skip(a as int)) == trim_start(s@),
            decreases s.len() - a,
        {
            assert(s@.skip(a as int).drop_first() =~= s@.skip(a + 1));
            a = a + 1;
        }
        if a == s.len() {
            return Err(Error::InvalidInterval);
        }
        let ghost t = s@.skip(a as int);
        let mut word: Vec<char> = Vec::new();
        let mut has_period = false;
        let mut b: usize = a;
        while b < s.len() && !is_whitespace(s[b])
            invariant
                a <= b <= s.len(),
                t == s@.skip(a as int),
                word@ + take_word(s@.skip(b as int)) == take_word(t),
                has_period == word@.contains('.'),
            decreases s.len() - b,
        {
            assert(s@.skip(b as int).drop_first() =~= s@.skip(b + 1));
            let ghost old_word = word@;
            word.push(s[b]);
            assert(word@ + take_word(s@.skip(b + 1)) =~= old_word + take_word(s@.skip(b as int)));
            proof {
                lemma_contains_push(old_word, s@[b as int], '.');
            }
            if s[b] == '.' {
                has_period = true;
            }
            b = b + 1;
        }
        assert(take_word(s@.skip(b as int)) =~= Seq::<char>::empty());
        assert(word@ =~= take_word(t));
        if has_period {
            match parse_decimal(word.as_slice()) {
                Ok(d) => Ok(Interval::Cents(d)),
                Err(_) => Err(Error::InvalidCents),
            }
        } else {
            match parse_ratio(word.as_slice()) {
                Ok(q) => Ok(Interval::Ratio(q)),
                Err(_) => Err(Error::InvalidRatio),
            }
        }
    }
}

} // verus!
