use vstd::prelude::*;
use crate::error::ParseIntError;

verus! {

broadcast use vstd::string::group_string_axioms;

/// The characters of `s`, in order.
pub fn chars_of(s: &str) -> (r: Vec<char>)
    ensures
        r@ == s@,
{
    let mut r: Vec<char> = Vec::new();
    for c in it: s.chars()
        invariant
            r@ == it.seq().take(it.index() as int),
            it.seq() == s@,
    {
        r.push(c);
    }
    r
}

pub open spec fn is_ascii_digit(c: char) -> bool {
    '0' <= c && c <= '9'
}

pub open spec fn digit_value(c: char) -> nat {
    (c as nat - '0' as nat) as nat
}

/// The number that the decimal digits `s` denote.
pub open spec fn digits_value(s: Seq<char>) -> nat
    decreases s.len(),
{
    if s.len() == 0 {
        0
    } else {
        digits_value(s.drop_last()) * 10 + digit_value(s.last())
    }
}

/// Reading the digits `d` one at a time, the first problem met: a character
/// that is not a digit, or a prefix whose value exceeds `max`.
pub open spec fn first_digit_error(d: Seq<char>, max: nat) -> Option<ParseIntError>
    decreases d.len(),
{
    if d.len() == 0 {
        None
    } else {
        match first_digit_error(d.drop_last(), max) {
            Some(e) => Some(e),
            None => if !is_ascii_digit(d.last()) {
                Some(ParseIntError::InvalidDigit)
            } else if digits_value(d) > max {
                Some(ParseIntError::PosOverflow)
            } else {
                None
            },
        }
    }
}

/// What std's `from_str` for an unsigned integer type whose largest value
/// is `max` gives on `s`: an optional leading `+`, then decimal digits.
pub open spec fn spec_parse_unsigned(s: Seq<char>, max: nat) -> Result<nat, ParseIntError> {
    if s.len() == 0 {
        Err(ParseIntError::Empty)
    } else if s.len() == 1 && (s[0] == '+' || s[0] == '-') {
        Err(ParseIntError::InvalidDigit)
    } else {
        let d = if s[0] == '+' { s.drop_first() } else { s };
        match first_digit_error(d, max) {
            Some(e) => Err(e),
            None => Ok(digits_value(d)),
        }
    }
}

proof fn lemma_no_error_prefix(d: Seq<char>, max: nat, i: int)
    requires
        0 <= i <= d.len(),
        first_digit_error(d, max) is None,
    ensures
        first_digit_error(d.take(i), max) is None,
    decreases d.len(),
{
    if i < d.len() {
        assert(d.drop_last().take(i) == d.take(i));
        lemma_no_error_prefix(d.drop_last(), max, i);
    } else {
        assert(d.take(i) == d);
    }
}

/// Reads an unsigned decimal number no larger than `max`, as std's
/// `from_str` for unsigned integers does.
pub fn parse_unsigned(s: &[char], max: u64) -> (r: Result<u64, ParseIntError>)
    ensures
        match spec_parse_unsigned(s@, max as nat) {
            Ok(n) => r == Ok::<u64, ParseIntError>(n as u64),
            Err(e) => r == Err::<u64, ParseIntError>(e),
        },
{
    if s.len() == 0 {
        return Err(ParseIntError::Empty);
    }
    if s.len() == 1 && (s[0] == '+' || s[0] == '-') {
        return Err(ParseIntError::InvalidDigit);
    }
    let start: usize = if s[0] == '+' { 1 } else { 0 };
    let ghost d = if s@[0] == '+' { s@.drop_first() } else { s@ };
    assert(d == s@.skip(start as int));
    let mut value: u64 = 0;
    let mut i: usize = start;
    while i < s.len()
        invariant
            start <= i <= s.len(),
            d == s@.skip(start as int),
            s@.len() > 0,
            !(s@.len() == 1 && (s@[0] == '+' || s@[0] == '-')),
            d == (if s@[0] == '+' { s@.drop_first() } else { s@ }),
            first_digit_error(d.take(i - start), max as nat) is None,
            value == digits_value(d.take(i - start)),
            value <= max,
        decreases s.len() - i,
    {
        let c = s[i];
        let ghost k = (i - start) as int;
        assert(d.take(k + 1).drop_last() == d.take(k));
        assert(d.take(k + 1).last() == c);
        if !('0' <= c && c <= '9') {
            assert(first_digit_error(d.take(k + 1), max as nat) == Some(ParseIntError::InvalidDigit));
            proof {
                lemma_error_extends(d, max as nat, k + 1);
            }
            return Err(ParseIntError::InvalidDigit);
        }
        let digit = (c as u32 - '0' as u32) as u64;
        assert(digit == digit_value(c));
        if (value as u128) * 10 + (digit as u128) > max as u128 {
            assert(first_digit_error(d.take(k + 1), max as nat) == Some(ParseIntError::PosOverflow));
            proof {
                lemma_error_extends(d, max as nat, k + 1);
            }
            return Err(ParseIntError::PosOverflow);
        }
        value = value * 10 + digit;
        i = i + 1;
    }
    assert(d.take(s.len() - start) == d);
    Ok(value)
}

proof fn lemma_error_extends(d: Seq<char>, max: nat, i: int)
    requires
        0 < i <= d.len(),
        first_digit_error(d.take(i), max) is Some,
    ensures
        first_digit_error(d, max) == first_digit_error(d.take(i), max),
    decreases d.len(),
{
    if i < d.len() {
        assert(d.drop_last().take(i) == d.take(i));
        lemma_error_extends(d.drop_last(), max, i);
    } else {
        assert(d.take(i) == d);
    }
}

proof fn lemma_first_digit_error_wider(d: Seq<char>, a: nat, b: nat)
    requires
        a <= b,
        first_digit_error(d, a) is None,
    ensures
        first_digit_error(d, b) is None,
    decreases d.len(),
{
    if d.len() > 0 {
        lemma_first_digit_error_wider(d.drop_last(), a, b);
    }
}

/// A number read under a smaller bound reads the same under a larger one.
pub proof fn lemma_parse_unsigned_wider(s: Seq<char>, a: nat, b: nat)
    requires
        a <= b,
        spec_parse_unsigned(s, a) is Ok,
    ensures
        spec_parse_unsigned(s, b) == spec_parse_unsigned(s, a),
{
    if s.len() > 0 && !(s.len() == 1 && (s[0] == '+' || s[0] == '-')) {
        let d = if s[0] == '+' { s.drop_first() } else { s };
        lemma_first_digit_error_wider(d, a, b);
    }
}

pub fn parse_u8(s: &[char]) -> (r: Result<u8, ParseIntError>)
    ensures
        match spec_parse_unsigned(s@, 255) {
            Ok(n) => r == Ok::<u8, ParseIntError>(n as u8),
            Err(e) => r == Err::<u8, ParseIntError>(e),
        },
{
    match parse_unsigned(s, 255) {
        Ok(n) => Ok(n as u8),
        Err(e) => Err(e),
    }
}

pub fn parse_usize(s: &[char]) -> (r: Result<usize, ParseIntError>)
    ensures
        match spec_parse_unsigned(s@, usize::MAX as nat) {
            Ok(n) => r == Ok::<usize, ParseIntError>(n as usize),
            Err(e) => r == Err::<usize, ParseIntError>(e),
        },
{
    match parse_unsigned(s, usize::MAX as u64) {
        Ok(n) => Ok(n as usize),
        Err(e) => Err(e),
    }
}

} // verus!

verus! {

/// The characters with the Unicode `White_Space` property, which is what
/// `char::is_whitespace` tests.
pub open spec fn spec_is_whitespace(c: char) -> bool {
    ||| ('\u{9}' <= c && c <= '\u{d}')
    ||| c == ' '
    ||| c == '\u{85}'
    ||| c == '\u{a0}'
    ||| c == '\u{1680}'
    ||| ('\u{2000}' <= c && c <= '\u{200a}')
    ||| c == '\u{2028}'
    ||| c == '\u{2029}'
    ||| c == '\u{202f}'
    ||| c == '\u{205f}'
    ||| c == '\u{3000}'
}

pub fn is_whitespace(c: char) -> (r: bool)
    ensures
        r == spec_is_whitespace(c),
{
    ('\u{9}' <= c && c <= '\u{d}') || c == ' ' || c == '\u{85}' || c == '\u{a0}' || c
        == '\u{1680}' || ('\u{2000}' <= c && c <= '\u{200a}') || c == '\u{2028}' || c
        == '\u{2029}' || c == '\u{202f}' || c == '\u{205f}' || c == '\u{3000}'
}

/// `s` without its leading whitespace.
pub open spec fn trim_start(s: Seq<char>) -> Seq<char>
    decreases s.len(),
{
    if s.len() > 0 && spec_is_whitespace(s[0]) {
        trim_start(s.drop_first())
    } else {
        s
    }
}

/// `s` without its trailing whitespace.
pub open spec fn trim_end(s: Seq<char>) -> Seq<char>
    decreases s.len(),
{
    if s.len() > 0 && spec_is_whitespace(s.last()) {
        trim_end(s.drop_last())
    } else {
        s
    }
}

/// `s` without leading and trailing whitespace, as `str::trim` gives.
pub open spec fn trim(s: Seq<char>) -> Seq<char> {
    trim_end(trim_start(s))
}

pub fn trim_chars(s: &[char]) -> (r: Vec<char>)
    ensures
        r@ == trim(s@),
{
    let mut a: usize = 0;
    assert(s@.skip(0) =~= s@);
    while a < s.len() && is_whitespace(s[a])
        invariant
            a <= s.len(),
            trim_start(s@.skip(a as int)) == trim_start(s@),
        decreases s.len() - a,
    {
        assert(s@.skip(a as int).drop_first() =~= s@.skip(a + 1));
        a = a + 1;
    }
    let ghost t = s@.skip(a as int);
    assert(trim_start(s@) == t);
    let mut b: usize = s.len();
    while b > a && is_whitespace(s[b - 1])
        invariant
            a <= b <= s.len(),
            t == s@.skip(a as int),
            trim_end(s@.subrange(a as int, b as int)) == trim_end(t),
        decreases b,
    {
        assert(s@.subrange(a as int, b as int).drop_last() =~= s@.subrange(a as int, b - 1));
        b = b - 1;
    }
    assert(s@.subrange(a as int, b as int) =~= t.take(b - a));
    let mut r: Vec<char> = Vec::new();
    let mut i: usize = a;
    while i < b
        invariant
            a <= i <= b <= s.len(),
            r@ == s@.subrange(a as int, i as int),
        decreases b - i,
    {
        r.push(s[i]);
        i = i + 1;
        assert(r@ =~= s@.subrange(a as int, i as int));
    }
    r
}

/// `line` without one trailing carriage return.
pub open spec fn strip_cr(line: Seq<char>) -> Seq<char> {
    if line.len() > 0 && line.last() == '\r' {
        line.drop_last()
    } else {
        line
    }
}

/// The lines of `s` that follow the partial line `cur`, as `str::lines`
/// splits them: at each line feed, dropping a carriage return before it;
/// a final line feed ends the last line without starting an empty one.
pub open spec fn lines_from(cur: Seq<char>, s: Seq<char>) -> Seq<Seq<char>>
    decreases s.len(),
{
    if s.len() == 0 {
        if cur.len() > 0 {
            seq![cur]
        } else {
            Seq::empty()
        }
    } else if s[0] == '\n' {
        seq![strip_cr(cur)] + lines_from(Seq::empty(), s.drop_first())
    } else {
        lines_from(cur.push(s[0]), s.drop_first())
    }
}

/// The lines of `s`, as `str::lines` gives them.
pub open spec fn lines(s: Seq<char>) -> Seq<Seq<char>> {
    lines_from(Seq::empty(), s)
}

/// A copy of `s`.
pub fn copy_chars(s: &Vec<char>) -> (r: Vec<char>)
    ensures
        r@ == s@,
{
    let mut r: Vec<char> = Vec::new();
    let mut i: usize = 0;
    while i < s.len()
        invariant
            i <= s.len(),
            r@ == s@.take(i as int),
        decreases s.len() - i,
    {
        r.push(s[i]);
        i = i + 1;
        assert(r@ =~= s@.take(i as int));
    }
    assert(s@.take(s.len() as int) =~= s@);
    r
}

/// The characters of each line.
pub open spec fn views(v: Seq<Vec<char>>) -> Seq<Seq<char>> {
    v.map_values(|x: Vec<char>| x@)
}

pub fn split_lines(s: &[char]) -> (r: Vec<Vec<char>>)
    ensures
        views(r@) == lines(s@),
{
    let mut r: Vec<Vec<char>> = Vec::new();
    let mut cur: Vec<char> = Vec::new();
    let mut i: usize = 0;
    assert(s@.skip(0) =~= s@);
    while i < s.len()
        invariant
            i <= s.len(),
            views(r@) + lines_from(cur@, s@.skip(i as int)) == lines(s@),
        decreases s.len() - i,
    {
        let c = s[i];
        assert(s@.skip(i as int).drop_first() =~= s@.skip(i + 1));
        if c == '\n' {
            let ghost before = cur@;
            if cur.len() > 0 && cur[cur.len() - 1] == '\r' {
                cur.pop();
            }
            assert(cur@ =~= strip_cr(before));
            let ghost old_views = views(r@);
            r.push(cur);
            assert(views(r@) =~= old_views.push(strip_cr(before)));
            assert(views(r@) + lines_from(Seq::empty(), s@.skip(i + 1)) =~= old_views + (seq![
                strip_cr(before),
            ] + lines_from(Seq::empty(), s@.skip(i + 1))));
            cur = Vec::new();
        } else {
            cur.push(c);
        }
        i = i + 1;
    }
    if cur.len() > 0 {
        let ghost old_views = views(r@);
        r.push(cur);
        assert(views(r@) =~= old_views + lines_from(cur@, s@.skip(i as int)));
    } else {
        assert(views(r@) =~= views(r@) + lines_from(cur@, s@.skip(i as int)));
    }
    r
}

/// The pieces of the partial piece `cur` followed by `s`, cut at each `sep`
/// as `str::split` cuts them.
pub open spec fn fields_from(cur: Seq<char>, s: Seq<char>, sep: char) -> Seq<Seq<char>>
    decreases s.len(),
{
    if s.len() == 0 {
        seq![cur]
    } else if s[0] == sep {
        seq![cur] + fields_from(Seq::empty(), s.drop_first(), sep)
    } else {
        fields_from(cur.push(s[0]), s.drop_first(), sep)
    }
}

/// The pieces of `s` between occurrences of `sep`, as `str::split` gives
/// them: one more piece than there are separators.
pub open spec fn fields(s: Seq<char>, sep: char) -> Seq<Seq<char>> {
    fields_from(Seq::empty(), s, sep)
}

pub fn split_fields(s: &[char], sep: char) -> (r: Vec<Vec<char>>)
    ensures
        views(r@) == fields(s@, sep),
{
    let mut r: Vec<Vec<char>> = Vec::new();
    let mut cur: Vec<char> = Vec::new();
    let mut i: usize = 0;
    assert(s@.skip(0) =~= s@);
    while i < s.len()
        invariant
            i <= s.len(),
            views(r@) + fields_from(cur@, s@.skip(i as int), sep) == fields(s@, sep),
        decreases s.len() - i,
    {
        let c = s[i];
        assert(s@.skip(i as int).drop_first() =~= s@.skip(i + 1));
        if c == sep {
            let ghost piece = cur@;
            let ghost old_views = views(r@);
            r.push(cur);
            assert(views(r@) =~= old_views.push(piece));
            assert(views(r@) + fields_from(Seq::empty(), s@.skip(i + 1), sep) =~= old_views + (
            seq![piece] + fields_from(Seq::empty(), s@.skip(i + 1), sep)));
            cur = Vec::new();
        } else {
            cur.push(c);
        }
        i = i + 1;
    }
    let ghost old_views = views(r@);
    let ghost last = cur@;
    r.push(cur);
    assert(views(r@) =~= old_views + seq![last]);
    r
}

/// `c` with ASCII capitals made small.
pub open spec fn ascii_lower(c: char) -> char {
    if 'A' <= c && c <= 'Z' {
        ((c as u32) + 32) as char
    } else {
        c
    }
}

/// `s` and `word` (written in small ASCII letters) are the same but for the
/// case of ASCII letters.
pub open spec fn eq_ignore_ascii_case(s: Seq<char>, word: Seq<char>) -> bool {
    s.len() == word.len() && forall|i: int| 0 <= i < s.len() ==> ascii_lower(#[trigger] s[i]) == word[i]
}

/// Whether `c`, its ASCII capitals made small, is `w`.
pub fn lower_is(c: char, w: char) -> (r: bool)
    ensures
        r == (ascii_lower(c) == w),
{
    if 'A' <= c && c <= 'Z' {
        (c as u32) + 32 == (w as u32)
    } else {
        c == w
    }
}

/// The string made of the characters of `s`, collected with std's
/// `FromIterator<char>` for `String`.
///
/// Claimed: the string holds exactly those characters, in order.
#[verifier::external_body]
pub(crate) fn string_of(s: &[char]) -> (r: String)
    ensures
        r@ == s@,
{
    s.iter().collect()
}

/// `s` without its leading whitespace.
pub fn trim_start_chars(s: &[char]) -> (r: Vec<char>)
    ensures
        r@ == trim_start(s@),
{
    let mut a: usize = 0;
    assert(s@.skip(0) =~= s@);
    while a < s.len() && is_whitespace(s[a])
        invariant
            a <= s.len(),
            trim_start(s@.skip(a as int)) == trim_start(s@),
        decreases s.len() - a,
    {
        assert(s@.skip(a as int).drop_first() =~= s@.skip(a + 1));
        a = a + 1;
    }
    let mut r: Vec<char> = Vec::new();
    let mut i: usize = a;
    while i < s.len()
        invariant
            a <= i <= s.len(),
            r@ == s@.subrange(a as int, i as int),
        decreases s.len() - i,
    {
        r.push(s[i]);
        i = i + 1;
        assert(r@ =~= s@.subrange(a as int, i as int));
    }
    assert(r@ =~= s@.skip(a as int));
    r
}

/// The position of the first `c` in `s`, if there is one.
pub open spec fn find_char(s: Seq<char>, c: char) -> Option<nat> {
    if exists|i: int| 0 <= i < s.len() && s[i] == c && forall|j: int| 0 <= j < i ==> s[j] != c {
        Some(
            (choose|i: int|
                0 <= i < s.len() && s[i] == c && forall|j: int| 0 <= j < i ==> s[j] != c) as nat,
        )
    } else {
        None
    }
}

pub fn position_of(s: &[char], c: char) -> (r: Option<usize>)
    ensures
        match r {
            Some(i) => find_char(s@, c) == Some(i as nat) && i < s@.len(),
            None => find_char(s@, c) is None,
        },
{
    let mut i: usize = 0;
    while i < s.len()
        invariant
            i <= s.len(),
            forall|j: int| 0 <= j < i ==> s@[j] != c,
        decreases s.len() - i,
    {
        if s[i] == c {
            assert(0 <= i < s@.len() && s@[i as int] == c && forall|j: int|
                0 <= j < i ==> s@[j] != c);
            let ghost k = choose|k: int|
                0 <= k < s@.len() && s@[k] == c && forall|j: int| 0 <= j < k ==> s@[j] != c;
            assert(k == i) by {
                if k < i {
                    assert(s@[k] != c);
                } else if k > i {
                    assert(s@[i as int] != c);
                }
            }
            return Some(i);
        }
        i = i + 1;
    }
    None
}

/// The characters of `s` from `from` up to `to`.
pub fn slice_chars(s: &[char], from: usize, to: usize) -> (r: Vec<char>)
    requires
        from <= to <= s@.len(),
    ensures
        r@ == s@.subrange(from as int, to as int),
{
    let mut r: Vec<char> = Vec::new();
    let mut i: usize = from;
    while i < to
        invariant
            from <= i <= to <= s@.len(),
            r@ == s@.subrange(from as int, i as int),
        decreases to - i,
    {
        r.push(s[i]);
        i = i + 1;
        assert(r@ =~= s@.subrange(from as int, i as int));
    }
    r
}

/// Every character of `s` is a decimal digit.
pub open spec fn all_digits(s: Seq<char>) -> bool {
    forall|i: int| 0 <= i < s.len() ==> is_ascii_digit(#[trigger] s[i])
}

/// `s` without one leading `+` or `-`.
pub open spec fn unsigned_part(s: Seq<char>) -> Seq<char> {
    if s.len() > 0 && (s[0] == '+' || s[0] == '-') {
        s.drop_first()
    } else {
        s
    }
}

/// The position of the first `e` or `E` in `s`, if there is one.
pub open spec fn find_exponent_mark(s: Seq<char>) -> Option<nat> {
    if exists|i: int|
        0 <= i < s.len() && ascii_lower(s[i]) == 'e' && forall|j: int|
            0 <= j < i ==> ascii_lower(s[j]) != 'e' {
        Some(
            (choose|i: int|
                0 <= i < s.len() && ascii_lower(s[i]) == 'e' && forall|j: int|
                    0 <= j < i ==> ascii_lower(s[j]) != 'e') as nat,
        )
    } else {
        None
    }
}

/// Digits with at most one decimal point, and at least one digit.
pub open spec fn is_mantissa(m: Seq<char>) -> bool {
    match find_char(m, '.') {
        None => m.len() > 0 && all_digits(m),
        Some(p) => m.len() > 1 && all_digits(m.take(p as int)) && all_digits(m.skip(p as int + 1)),
    }
}

/// An optional sign followed by at least one digit.
pub open spec fn is_exponent(x: Seq<char>) -> bool {
    unsigned_part(x).len() > 0 && all_digits(unsigned_part(x))
}

/// A mantissa, optionally followed by `e` or `E` and an exponent.
pub open spec fn is_decimal_number(t: Seq<char>) -> bool {
    match find_exponent_mark(t) {
        None => is_mantissa(t),
        Some(k) => is_mantissa(t.take(k as int)) && is_exponent(t.skip(k as int + 1)),
    }
}

/// `s` is text that std's `f64::from_str` reads: an optional sign, then
/// `inf`, `infinity` or `nan` (in any case), or a decimal number with an
/// optional exponent, with no surrounding whitespace.
pub open spec fn is_float_text(s: Seq<char>) -> bool {
    let t = unsigned_part(s);
    ||| eq_ignore_ascii_case(t, seq!['i', 'n', 'f'])
    ||| eq_ignore_ascii_case(t, seq!['i', 'n', 'f', 'i', 'n', 'i', 't', 'y'])
    ||| eq_ignore_ascii_case(t, seq!['n', 'a', 'n'])
    ||| is_decimal_number(t)
}

fn all_digits_in(s: &[char], from: usize, to: usize) -> (r: bool)
    requires
        from <= to <= s@.len(),
    ensures
        r == all_digits(s@.subrange(from as int, to as int)),
{
    let mut i: usize = from;
    while i < to
        invariant
            from <= i <= to <= s@.len(),
            forall|j: int| from <= j < i ==> is_ascii_digit(s@[j]),
        decreases to - i,
    {
        if !('0' <= s[i] && s[i] <= '9') {
            assert(!is_ascii_digit(s@.subrange(from as int, to as int)[i - from]));
            return false;
        }
        i = i + 1;
    }
    assert forall|k: int| 0 <= k < to - from implies is_ascii_digit(
        #[trigger] s@.subrange(from as int, to as int)[k],
    ) by {
        assert(s@.subrange(from as int, to as int)[k] == s@[from + k]);
    }
    true
}

fn matches_word(s: &[char], from: usize, word: &[char]) -> (r: bool)
    requires
        from <= s@.len(),
        forall|i: int| 0 <= i < word@.len() ==> ascii_lower(#[trigger] word@[i]) == word@[i],
    ensures
        r == eq_ignore_ascii_case(s@.skip(from as int), word@),
{
    let n = s.len();
    if n - from != word.len() {
        return false;
    }
    let mut i: usize = 0;
    while i < word.len()
        invariant
            n == s@.len(),
            from <= s@.len(),
            s@.len() - from == word@.len(),
            i <= word@.len(),
            forall|j: int| 0 <= j < i ==> ascii_lower(s@[from + j]) == word@[j],
        decreases word.len() - i,
    {
        if !lower_is(s[from + i], word[i]) {
            assert(s@.skip(from as int)[i as int] == s@[from + i]);
            return false;
        }
        i = i + 1;
    }
    assert forall|j: int| 0 <= j < s@.skip(from as int).len() implies ascii_lower(
        #[trigger] s@.skip(from as int)[j],
    ) == word@[j] by {
        assert(s@.skip(from as int)[j] == s@[from + j]);
    }
    true
}

fn is_mantissa_chars(m: &[char]) -> (r: bool)
    ensures
        r == is_mantissa(m@),
{
    assert(m@.subrange(0, m@.len() as int) =~= m@);
    match position_of(m, '.') {
        None => m.len() > 0 && all_digits_in(m, 0, m.len()),
        Some(p) => {
            assert(m@.subrange(0, p as int) =~= m@.take(p as int));
            assert(m@.subrange(p + 1, m@.len() as int) =~= m@.skip(p + 1));
            m.len() > 1 && all_digits_in(m, 0, p) && all_digits_in(m, p + 1, m.len())
        },
    }
}

fn is_exponent_chars(x: &[char]) -> (r: bool)
    ensures
        r == is_exponent(x@),
{
    let start: usize = if x.len() > 0 && (x[0] == '+' || x[0] == '-') {
        1
    } else {
        0
    };
    assert(x@.subrange(start as int, x@.len() as int) =~= unsigned_part(x@));
    start < x.len() && all_digits_in(x, start, x.len())
}

/// Whether `s` is text that std's `f64::from_str` reads.
pub fn is_float_chars(s: &[char]) -> (r: bool)
    ensures
        r == is_float_text(s@),
{
    let start: usize = if s.len() > 0 && (s[0] == '+' || s[0] == '-') {
        1
    } else {
        0
    };
    let ghost t = unsigned_part(s@);
    assert(s@.skip(start as int) =~= t);
    let inf = ['i', 'n', 'f'];
    let infinity = ['i', 'n', 'f', 'i', 'n', 'i', 't', 'y'];
    let nan = ['n', 'a', 'n'];
    assert(inf@ =~= seq!['i', 'n', 'f']);
    assert(infinity@ =~= seq!['i', 'n', 'f', 'i', 'n', 'i', 't', 'y']);
    assert(nan@ =~= seq!['n', 'a', 'n']);
    if matches_word(s, start, inf.as_slice()) || matches_word(s, start, infinity.as_slice())
        || matches_word(s, start, nan.as_slice()) {
        return true;
    }
    let mut k: usize = start;
    while k < s.len() && !lower_is(s[k], 'e')
        invariant
            start <= k <= s@.len(),
            t == s@.skip(start as int),
            forall|j: int| start <= j < k ==> ascii_lower(s@[j]) != 'e',
        decreases s.len() - k,
    {
        k = k + 1;
    }
    if k == s.len() {
        assert(find_exponent_mark(t) is None) by {
            if exists|i: int|
                0 <= i < t.len() && ascii_lower(t[i]) == 'e' && forall|j: int|
                    0 <= j < i ==> ascii_lower(t[j]) != 'e' {
                let i = choose|i: int|
                    0 <= i < t.len() && ascii_lower(t[i]) == 'e' && forall|j: int|
                        0 <= j < i ==> ascii_lower(t[j]) != 'e';
                assert(t[i] == s@[start + i]);
            }
        }
        let m = slice_chars(s, start, s.len());
        is_mantissa_chars(m.as_slice())
    } else {
        let ghost p = (k - start) as int;
        assert(t[p] == s@[k as int]);
        assert forall|j: int| 0 <= j < p implies ascii_lower(t[j]) != 'e' by {
            assert(t[j] == s@[start + j]);
        }
        let ghost c = choose|i: int|
            0 <= i < t.len() && ascii_lower(t[i]) == 'e' && forall|j: int|
                0 <= j < i ==> ascii_lower(t[j]) != 'e';
        assert(c == p) by {
            if c < p {
                assert(ascii_lower(t[c]) != 'e');
            } else if c > p {
                assert(ascii_lower(t[p]) != 'e');
            }
        }
        assert(find_exponent_mark(t) == Some(p as nat));
        let m = slice_chars(s, start, k);
        let x = slice_chars(s, k + 1, s.len());
        assert(m@ =~= t.take(p));
        assert(x@ =~= t.skip(p + 1));
        is_mantissa_chars(m.as_slice()) && is_exponent_chars(x.as_slice())
    }
}

/// Among ASCII characters, exactly tab, line feed, vertical tab, form feed,
/// carriage return and space are whitespace, as `char::is_whitespace` says.
pub proof fn law_ascii_whitespace(c: char)
    requires
        (c as u32) < 128,
    ensures
        spec_is_whitespace(c) <==> (c == '\t' || c == '\n' || c == '\u{b}' || c == '\u{c}'
            || c == '\r' || c == ' '),
{
}

/// Leading whitespace is skipped: a whitespace character in front of a text
/// leaves what trimming its start gives unchanged.
pub proof fn law_trim_start_skips_whitespace(c: char, s: Seq<char>)
    requires
        spec_is_whitespace(c),
    ensures
        trim_start(seq![c] + s) == trim_start(s),
{
    assert((seq![c] + s).drop_first() =~= s);
}

/// The lines that follow the partial line `cur` and the text `s` do not
/// change when a line feed is added after them, as long as they do not
/// already end a line.
proof fn lemma_lines_final_feed(cur: Seq<char>, s: Seq<char>)
    requires
        (cur + s).len() > 0,
        (cur + s).last() != '\n',
        (cur + s).last() != '\r',
    ensures
        lines_from(cur, s.push('\n')) == lines_from(cur, s),
    decreases s.len(),
{
    if s.len() == 0 {
        assert(cur + s =~= cur);
        assert(s.push('\n') =~= seq!['\n']);
        assert(seq!['\n'].drop_first() =~= Seq::<char>::empty());
        assert(strip_cr(cur) == cur);
        assert(lines_from(Seq::empty(), Seq::empty()) == Seq::<Seq<char>>::empty());
        assert(seq![strip_cr(cur)] + Seq::<Seq<char>>::empty() =~= seq![cur]);
    } else {
        assert(s.push('\n')[0] == s[0]);
        assert(s.push('\n').drop_first() =~= s.drop_first().push('\n'));
        if s[0] == '\n' {
            assert((cur + s).last() == s.last());
            assert(s.len() > 1);
            assert(Seq::<char>::empty() + s.drop_first() =~= s.drop_first());
            lemma_lines_final_feed(Seq::empty(), s.drop_first());
        } else {
            assert(cur.push(s[0]) + s.drop_first() =~= cur + s);
            lemma_lines_final_feed(cur.push(s[0]), s.drop_first());
        }
    }
}

/// A text whose last line is not ended by a line feed has the same lines as
/// the text with a line feed appended: the characters after the last line
/// feed form a final line of their own.
pub proof fn law_lines_final_line_feed_optional(s: Seq<char>)
    requires
        s.len() > 0,
        s.last() != '\n',
        s.last() != '\r',
    ensures
        lines(s.push('\n')) == lines(s),
{
    assert(Seq::<char>::empty() + s =~= s);
    lemma_lines_final_feed(Seq::empty(), s);
}

/// Text with no line feed in it is one line, kept whole.
pub proof fn law_lines_single_line(s: Seq<char>)
    requires
        s.len() > 0,
        !s.contains('\n'),
    ensures
        lines(s) == seq![s],
{
    lemma_lines_no_feed(Seq::empty(), s);
    assert(Seq::<char>::empty() + s =~= s);
}

proof fn lemma_lines_no_feed(cur: Seq<char>, s: Seq<char>)
    requires
        (cur + s).len() > 0,
        !s.contains('\n'),
    ensures
        lines_from(cur, s) == seq![cur + s],
    decreases s.len(),
{
    if s.len() == 0 {
        assert(cur + s =~= cur);
    } else {
        assert(s[0] != '\n');
        assert forall|i: int| 0 <= i < s.drop_first().len() implies s.drop_first()[i] != '\n' by {
            assert(s.drop_first()[i] == s[i + 1]);
        }
        assert(cur.push(s[0]) + s.drop_first() =~= cur + s);
        lemma_lines_no_feed(cur.push(s[0]), s.drop_first());
    }
}

/// A line ended by a line feed comes first, without a carriage return before
/// the feed, and the lines of the rest follow it.
pub proof fn law_lines_first_line(a: Seq<char>, b: Seq<char>)
    requires
        !a.contains('\n'),
    ensures
        lines(a + seq!['\n'] + b) == seq![strip_cr(a)] + lines(b),
{
    lemma_lines_prefix(Seq::empty(), a, b);
    assert(Seq::<char>::empty() + a =~= a);
}

proof fn lemma_lines_prefix(cur: Seq<char>, a: Seq<char>, b: Seq<char>)
    requires
        !a.contains('\n'),
    ensures
        lines_from(cur, a + seq!['\n'] + b) == seq![strip_cr(cur + a)] + lines(b),
    decreases a.len(),
{
    let t = a + seq!['\n'] + b;
    if a.len() == 0 {
        assert(t =~= seq!['\n'] + b);
        assert(t.drop_first() =~= b);
        assert(cur + a =~= cur);
    } else {
        assert(t[0] == a[0]);
        assert(a[0] != '\n');
        assert(t.drop_first() =~= a.drop_first() + seq!['\n'] + b);
        assert forall|i: int| 0 <= i < a.drop_first().len() implies a.drop_first()[i] != '\n' by {
            assert(a.drop_first()[i] == a[i + 1]);
        }
        assert(cur.push(a[0]) + a.drop_first() =~= cur + a);
        lemma_lines_prefix(cur.push(a[0]), a.drop_first(), b);
    }
}

/// The decimal digit for `d` (below 10).
pub open spec fn digit_char(d: nat) -> char {
    ('0' as nat + d) as char
}

/// How `n` is written in decimal, with no leading zeros.
pub open spec fn decimal_text(n: nat) -> Seq<char>
    decreases n,
{
    if n < 10 {
        seq![digit_char(n)]
    } else {
        decimal_text(n / 10).push(digit_char(n % 10))
    }
}

proof fn lemma_decimal_text(n: nat, max: nat)
    ensures
        decimal_text(n).len() > 0,
        is_ascii_digit(decimal_text(n)[0]),
        digits_value(decimal_text(n)) == n,
        n <= max ==> first_digit_error(decimal_text(n), max) is None,
        n > max ==> first_digit_error(decimal_text(n), max) == Some(ParseIntError::PosOverflow),
    decreases n,
{
    let t = decimal_text(n);
    let d = if n < 10 { n } else { n % 10 };
    assert(d < 10);
    let c = digit_char(d);
    assert(c as nat == '0' as nat + d);
    assert(is_ascii_digit(c));
    assert(digit_value(c) == d);
    if n < 10 {
        assert(t == seq![c]);
        assert(t.drop_last() =~= Seq::<char>::empty());
        assert(t.last() == c);
        assert(digits_value(t.drop_last()) == 0);
        assert(digits_value(t) == d);
        assert(first_digit_error(t.drop_last(), max) is None);
    } else {
        lemma_decimal_text(n / 10, max);
        assert(t == decimal_text(n / 10).push(c));
        assert(t.drop_last() =~= decimal_text(n / 10));
        assert(t.last() == c);
        assert(t[0] == decimal_text(n / 10)[0]);
        assert((n / 10) * 10 + n % 10 == n);
        assert(digits_value(t) == digits_value(t.drop_last()) * 10 + digit_value(t.last()));
        if n <= max {
            assert(n / 10 <= max);
        }
    }
}

/// The decimal text of a number is read back as that number when it fits,
/// and refused as too large when it does not.
pub proof fn law_decimal_text_read_back(n: nat, max: nat)
    ensures
        n <= max ==> spec_parse_unsigned(decimal_text(n), max) == Ok::<nat, ParseIntError>(n),
        n > max ==> spec_parse_unsigned(decimal_text(n), max) == Err::<nat, ParseIntError>(
            ParseIntError::PosOverflow,
        ),
{
    lemma_decimal_text(n, max);
    let t = decimal_text(n);
    assert(t[0] != '+' && t[0] != '-');
}

} // verus!
