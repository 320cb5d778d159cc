use vstd::prelude::*;
use crate::error::Error;
use crate::keyboard_mapping::{KeyMapping, KeyMappings, KeyboardMapping, Reference};
use crate::text::law_lines_final_line_feed_optional;
use crate::text::{
    chars_of, copy_chars, is_float_chars, is_float_text, lemma_parse_unsigned_wider, lines,
    parse_u8, parse_usize, spec_parse_unsigned, split_lines, trim, trim_chars, views,
};
use crate::u7::{KeyNumber, U7};

verus! {

/// The lines of a keyboard mapping file that hold fields: trimmed, without
/// blank lines and without comment lines (those starting with `!`).
pub open spec fn kbm_tokens(ls: Seq<Seq<char>>) -> Seq<Seq<char>>
    decreases ls.len(),
{
    if ls.len() == 0 {
        Seq::empty()
    } else {
        let t = kbm_tokens(ls.drop_last());
        let l = trim(ls.last());
        if l.len() == 0 || l[0] == '!' {
            t
        } else {
            t.push(l)
        }
    }
}

/// Reading field `i` as a key number, what goes wrong, if anything.
pub open spec fn token_u7_error(t: Seq<Seq<char>>, i: int) -> Option<Error> {
    if i >= t.len() {
        Some(Error::StreamExhausted)
    } else {
        match spec_parse_unsigned(t[i], 255) {
            Err(e) => Some(Error::ParseInt(e)),
            Ok(n) => if n >= 128 {
                Some(Error::OutOfRange(n as u8))
            } else {
                None
            },
        }
    }
}

/// Reading field `i` as a count, what goes wrong, if anything.
pub open spec fn token_usize_error(t: Seq<Seq<char>>, i: int) -> Option<Error> {
    if i >= t.len() {
        Some(Error::StreamExhausted)
    } else {
        match spec_parse_unsigned(t[i], usize::MAX as nat) {
            Err(e) => Some(Error::ParseInt(e)),
            Ok(n) => None,
        }
    }
}

/// The number field `i` holds.
pub open spec fn token_value(t: Seq<Seq<char>>, i: int) -> nat {
    spec_parse_unsigned(t[i], usize::MAX as nat)->Ok_0
}

/// Reading field `i` as a mapping entry (`x` or a degree), what goes wrong.
pub open spec fn mapping_error(t: Seq<Seq<char>>, i: int) -> Option<Error> {
    if i < t.len() && t[i] == seq!['x'] {
        None
    } else {
        token_usize_error(t, i)
    }
}

/// Reading the mapping entries in fields `lo..hi` in turn, the first problem.
pub open spec fn first_mapping_error(t: Seq<Seq<char>>, lo: int, hi: int) -> Option<Error>
    decreases hi - lo,
{
    if hi <= lo {
        None
    } else {
        match first_mapping_error(t, lo, hi - 1) {
            Some(e) => Some(e),
            None => mapping_error(t, hi - 1),
        }
    }
}

/// The mapping entry in field `i`.
pub open spec fn mapping_at(t: Seq<Seq<char>>, i: int) -> KeyMapping {
    if t[i] == seq!['x'] {
        KeyMapping::Unmapped
    } else {
        KeyMapping::Degree(token_value(t, i) as usize)
    }
}

/// The `size` mapping entries of a keyboard mapping file with fields `t`.
pub open spec fn kbm_mappings(t: Seq<Seq<char>>, size: nat) -> Seq<KeyMapping> {
    Seq::new(size, |i: int| mapping_at(t, 7 + i))
}

/// Every key plays the degree of its own position.
pub open spec fn is_linear(m: Seq<KeyMapping>) -> bool {
    forall|i: int| 0 <= i < m.len() ==> #[trigger] m[i] == KeyMapping::Degree(i as usize)
}

/// Reading a keyboard mapping file with fields `t`, the first problem met.
pub open spec fn kbm_error(t: Seq<Seq<char>>) -> Option<Error> {
    if token_usize_error(t, 0) is Some {
        token_usize_error(t, 0)
    } else if token_value(t, 0) > 127 {
        Some(Error::InvalidSize)
    } else if token_u7_error(t, 1) is Some {
        token_u7_error(t, 1)
    } else if token_u7_error(t, 2) is Some {
        token_u7_error(t, 2)
    } else if token_u7_error(t, 3) is Some {
        token_u7_error(t, 3)
    } else if token_u7_error(t, 4) is Some {
        token_u7_error(t, 4)
    } else if t.len() <= 5 {
        Some(Error::StreamExhausted)
    } else if !is_float_text(t[5]) {
        Some(Error::InvalidFrequency)
    } else if token_usize_error(t, 6) is Some {
        token_usize_error(t, 6)
    } else if first_mapping_error(t, 7, 7 + token_value(t, 0) as int) is Some {
        first_mapping_error(t, 7, 7 + token_value(t, 0) as int)
    } else if t.len() > 7 + token_value(t, 0) {
        Some(Error::InvalidKbmFile)
    } else if token_value(t, 2) < token_value(t, 1) {
        Some(Error::InvalidEndKey)
    } else {
        None
    }
}

/// A Scala keyboard mapping (`.kbm`) file. The reference frequency is kept
/// as the text of its line, which has been checked to be a number.
#[derive(Debug)]
pub struct KbmFile {
    size: usize,
    middle_key: KeyNumber,
    equave_degree: usize,
    keyboard_mapping: KeyboardMapping<Vec<char>>,
}

impl KbmFile {
    pub closed spec fn spec_size(&self) -> nat {
        self.size as nat
    }

    pub closed spec fn spec_middle_key(&self) -> u8 {
        self.middle_key.value()
    }

    pub closed spec fn spec_equave_degree(&self) -> nat {
        self.equave_degree as nat
    }

    pub closed spec fn spec_keyboard_mapping(&self) -> KeyboardMapping<Vec<char>> {
        self.keyboard_mapping
    }

    /// The file's fields hold: `t` are the field lines, and `self` is what
    /// they say.
    pub open spec fn holds_fields(&self, t: Seq<Seq<char>>) -> bool {
        let size = token_value(t, 0);
        let m = self.spec_keyboard_mapping();
        &&& self.spec_size() == size
        &&& m.spec_start_key() == token_value(t, 1)
        &&& m.spec_end_key() == token_value(t, 2)
        &&& self.spec_middle_key() == token_value(t, 3)
        &&& m.spec_reference().spec_zero_key() == token_value(t, 3)
        &&& m.spec_reference().spec_reference_key() == token_value(t, 4)
        &&& m.spec_reference().spec_reference_frequency()@ == t[5]
        &&& self.spec_equave_degree() == token_value(t, 6)
        &&& if is_linear(kbm_mappings(t, size)) {
            m.spec_key_mappings() is Linear
        } else {
            m.spec_key_mappings() matches KeyMappings::Custom(v) && v@ == kbm_mappings(t, size)
        }
    }

    pub fn keyboard_mapping(&self) -> (r: &KeyboardMapping<Vec<char>>)
        ensures
            *r == self.spec_keyboard_mapping(),
    {
        &self.keyboard_mapping
    }

    /// Reads a keyboard mapping file.
    pub fn from_str(s: &str) -> (r: Result<Self, Error>)
        ensures
            match kbm_error(kbm_tokens(lines(s@))) {
                Some(e) => r == Err::<Self, Error>(e),
                None => r matches Ok(k) && k.holds_fields(kbm_tokens(lines(s@))),
            },
    {
        let chars = chars_of(s);
        let all_lines = split_lines(chars.as_slice());
        let tokens = field_lines(&all_lines);
        Self::from_fields(&tokens)
    }

    fn from_fields(tokens: &Vec<Vec<char>>) -> (r: Result<Self, Error>)
        ensures
            match kbm_error(views(tokens@)) {
                Some(e) => r == Err::<Self, Error>(e),
                None => r matches Ok(k) && k.holds_fields(views(tokens@)),
            },
    {
        let ghost t = views(tokens@);
        let size = match read_usize_field(tokens, 0) {
            Ok(x) => x,
            Err(e) => return Err(e),
        };
        if size > 127 {
            return Err(Error::InvalidSize);
        }
        let start_key = match read_key_field(tokens, 1) {
            Ok(x) => x,
            Err(e) => return Err(e),
        };
        let end_key = match read_key_field(tokens, 2) {
            Ok(x) => x,
            Err(e) => return Err(e),
        };
        let middle_key = match read_key_field(tokens, 3) {
            Ok(x) => x,
            Err(e) => return Err(e),
        };
        let reference_key = match read_key_field(tokens, 4) {
            Ok(x) => x,
            Err(e) => return Err(e),
        };
        if tokens.len() <= 5 {
            return Err(Error::StreamExhausted);
        }
        if !is_float_chars(tokens[5].as_slice()) {
            return Err(Error::InvalidFrequency);
        }
        let reference_frequency = copy_chars(&tokens[5]);
        let equave_degree = match read_usize_field(tokens, 6) {
            Ok(x) => x,
            Err(e) => return Err(e),
        };

        let mut linear = true;
        let mut key_mappings: Vec<KeyMapping> = Vec::new();
        let mut i: usize = 0;
        while i < size
            invariant
                t == views(tokens@),
                size <= 127,
                size == token_value(t, 0),
                i <= size,
                first_mapping_error(t, 7, 7 + i) is None,
                key_mappings@ == kbm_mappings(t, i as nat),
                linear == is_linear(kbm_mappings(t, i as nat)),
                kbm_error(t) == (if first_mapping_error(t, 7, 7 + size) is Some {
                    first_mapping_error(t, 7, 7 + size)
                } else if t.len() > 7 + size {
                    Some(Error::InvalidKbmFile)
                } else if token_value(t, 2) < token_value(t, 1) {
                    Some(Error::InvalidEndKey)
                } else {
                    None
                }),
            decreases size - i,
        {
            let k = 7 + i;
            if k >= tokens.len() {
                assert(first_mapping_error(t, 7, k + 1) == mapping_error(t, k as int));
                proof {
                    lemma_first_mapping_error_extends(t, 7, k + 1, 7 + size);
                }
                return Err(Error::StreamExhausted);
            }
            let mapping = if is_x(&tokens[k]) {
                linear = false;
                KeyMapping::Unmapped
            } else {
                let degree = match parse_usize(tokens[k].as_slice()) {
                    Ok(d) => d,
                    Err(e) => {
                        assert(first_mapping_error(t, 7, k + 1) == mapping_error(t, k as int));
                        proof {
                            lemma_first_mapping_error_extends(t, 7, k + 1, 7 + size);
                        }
                        return Err(Error::ParseInt(e));
                    },
                };
                if linear && degree != i {
                    linear = false;
                }
                KeyMapping::Degree(degree)
            };
            let ghost before = kbm_mappings(t, i as nat);
            key_mappings.push(mapping);
            i = i + 1;
            assert(kbm_mappings(t, i as nat) =~= before.push(mapping));
            assert(first_mapping_error(t, 7, 7 + i) == mapping_error(t, 7 + i - 1));
            assert(linear == is_linear(kbm_mappings(t, i as nat))) by {
                if linear {
                    assert forall|j: int| 0 <= j < i implies #[trigger] kbm_mappings(
                        t,
                        i as nat,
                    )[j] == KeyMapping::Degree(j as usize) by {
                        if j < i - 1 {
                            assert(kbm_mappings(t, i as nat)[j] == before[j]);
                        }
                    }
                } else if is_linear(before) {
                    assert(kbm_mappings(t, i as nat)[i - 1] != KeyMapping::Degree(
                        (i - 1) as usize,
                    ));
                } else {
                    let j = choose|j: int|
                        0 <= j < before.len() && #[trigger] before[j] != KeyMapping::Degree(
                            j as usize,
                        );
                    assert(kbm_mappings(t, i as nat)[j] == before[j]);
                }
            }
        }

        if tokens.len() > 7 + size {
            return Err(Error::InvalidKbmFile);
        }
        let key_mappings = if linear {
            KeyMappings::Linear
        } else {
            KeyMappings::Custom(key_mappings)
        };
        let reference = Reference::new(middle_key, reference_key, reference_frequency);
        let keyboard_mapping = match KeyboardMapping::new(
            start_key,
            end_key,
            reference,
            key_mappings,
        ) {
            Ok(m) => m,
            Err(e) => return Err(e),
        };
        Ok(KbmFile { size, middle_key, equave_degree, keyboard_mapping })
    }
}

proof fn lemma_first_mapping_error_extends(t: Seq<Seq<char>>, lo: int, mid: int, hi: int)
    requires
        lo <= mid <= hi,
        first_mapping_error(t, lo, mid) is Some,
    ensures
        first_mapping_error(t, lo, hi) == first_mapping_error(t, lo, mid),
    decreases hi - mid,
{
    if mid < hi {
        lemma_first_mapping_error_extends(t, lo, mid, hi - 1);
    }
}

fn is_x(s: &Vec<char>) -> (r: bool)
    ensures
        r == (s@ == seq!['x']),
{
    let r = s.len() == 1 && s[0] == 'x';
    assert(r ==> s@ =~= seq!['x']);
    r
}

/// The trimmed field lines among `all_lines`.
fn field_lines(all_lines: &Vec<Vec<char>>) -> (r: Vec<Vec<char>>)
    ensures
        views(r@) == kbm_tokens(views(all_lines@)),
{
    let mut r: Vec<Vec<char>> = Vec::new();
    let mut i: usize = 0;
    while i < all_lines.len()
        invariant
            i <= all_lines.len(),
            views(r@) == kbm_tokens(views(all_lines@).take(i as int)),
        decreases all_lines.len() - i,
    {
        let l = trim_chars(all_lines[i].as_slice());
        assert(views(all_lines@).take(i + 1).drop_last() =~= views(all_lines@).take(i as int));
        if l.len() == 0 || l[0] == '!' {
        } else {
            let ghost old_views = views(r@);
            r.push(l);
            assert(views(r@) =~= old_views.push(l@));
        }
        i = i + 1;
    }
    assert(views(all_lines@).take(all_lines.len() as int) =~= views(all_lines@));
    r
}

fn read_usize_field(tokens: &Vec<Vec<char>>, i: usize) -> (r: Result<usize, Error>)
    ensures
        match token_usize_error(views(tokens@), i as int) {
            Some(e) => r == Err::<usize, Error>(e),
            None => r == Ok::<usize, Error>(token_value(views(tokens@), i as int) as usize),
        },
{
    if i >= tokens.len() {
        return Err(Error::StreamExhausted);
    }
    match parse_usize(tokens[i].as_slice()) {
        Ok(n) => Ok(n),
        Err(e) => Err(Error::ParseInt(e)),
    }
}

fn read_key_field(tokens: &Vec<Vec<char>>, i: usize) -> (r: Result<KeyNumber, Error>)
    ensures
        match token_u7_error(views(tokens@), i as int) {
            Some(e) => r == Err::<KeyNumber, Error>(e),
            None => r matches Ok(k) && k.value() == token_value(views(tokens@), i as int),
        },
{
    if i >= tokens.len() {
        return Err(Error::StreamExhausted);
    }
    let n = match parse_u8(tokens[i].as_slice()) {
        Ok(n) => n,
        Err(e) => return Err(Error::ParseInt(e)),
    };
    proof {
        lemma_parse_unsigned_wider(tokens@[i as int]@, 255, usize::MAX as nat);
    }
    match KeyNumber::try_from_u8(n) {
        Ok(k) => Ok(k),
        Err(_) => Err(Error::OutOfRange(n)),
    }
}

/// A keyboard mapping file whose last line has no line feed reads the same
/// as with one appended: the final line still counts.
pub proof fn law_kbm_final_line_feed_optional(s: Seq<char>)
    requires
        s.len() > 0,
        s.last() != '\n',
        s.last() != '\r',
    ensures
        kbm_tokens(lines(s.push('\n'))) == kbm_tokens(lines(s)),
        kbm_error(kbm_tokens(lines(s.push('\n')))) == kbm_error(kbm_tokens(lines(s))),
{
    law_lines_final_line_feed_optional(s);
}

} // verus!
