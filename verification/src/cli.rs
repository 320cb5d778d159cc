use vstd::prelude::*;
use crate::keyboard_mapping::Reference;
use crate::text::{
    decimal_text, law_decimal_text_read_back,
    ascii_lower, chars_of, eq_ignore_ascii_case, fields, is_float_chars, is_float_text,
    lower_is, parse_u8, spec_parse_unsigned, split_fields, views,
};
use crate::u7::{KeyNumber, U7};

verus! {

/// Why a reference given on the command line was refused.
#[derive(Clone, Copy, Debug, PartialEq, Eq, Structural)]
pub enum ReferenceError {
    /// Not `default`, and not three comma-separated fields.
    InvalidReference,
    /// The first field is not a key number.
    InvalidZeroKey,
    /// The second field is not a key number.
    InvalidReferenceKey,
    /// The third field is not a number.
    InvalidReferenceFrequency,
}

/// The word that selects the default reference.
pub open spec fn default_word() -> Seq<char> {
    seq!['d', 'e', 'f', 'a', 'u', 'l', 't']
}

/// The key number written in `t`, if it is one.
pub open spec fn key_value(t: Seq<char>) -> Option<u8> {
    match spec_parse_unsigned(t, 255) {
        Ok(n) => if n < 128 {
            Some(n as u8)
        } else {
            None
        },
        Err(_) => None,
    }
}

/// What reading `s` as a reference gives: the zero key, the reference key
/// and the text of the reference frequency.
pub open spec fn reference_result(s: Seq<char>) -> Result<(u8, u8, Seq<char>), ReferenceError> {
    let parts = fields(s, ',');
    if eq_ignore_ascii_case(s, default_word()) {
        Ok((69, 69, seq!['4', '4', '0']))
    } else if parts.len() != 3 {
        Err(ReferenceError::InvalidReference)
    } else if key_value(parts[0]) is None {
        Err(ReferenceError::InvalidZeroKey)
    } else if key_value(parts[1]) is None {
        Err(ReferenceError::InvalidReferenceKey)
    } else if !is_float_text(parts[2]) {
        Err(ReferenceError::InvalidReferenceFrequency)
    } else {
        Ok((key_value(parts[0])->0, key_value(parts[1])->0, parts[2]))
    }
}

pub(crate) fn parse_key(t: &Vec<char>) -> (r: Option<KeyNumber>)
    ensures
        match key_value(t@) {
            Some(n) => r matches Some(k) && k.value() == n,
            None => r is None,
        },
{
    match parse_u8(t.as_slice()) {
        Ok(n) => if n < 128 {
            Some(KeyNumber::from_u8_lossy(n))
        } else {
            None
        },
        Err(_) => None,
    }
}

/// Reads a reference from the command line: `default` (in any case) for
/// key 69 at 440 Hz as both zero and reference key, or
/// `zero_key,reference_key,frequency`. The frequency, checked to be a
/// number, is handed back as text.
pub fn parse_reference(s: &str) -> (r: Result<Reference<Vec<char>>, ReferenceError>)
    ensures
        match reference_result(s@) {
            Ok((zero, reference, frequency)) => r matches Ok(x) && x.spec_zero_key() == zero
                && x.spec_reference_key() == reference && x.spec_reference_frequency()@
                == frequency,
            Err(e) => r == Err::<Reference<Vec<char>>, ReferenceError>(e),
        },
{
    let chars = chars_of(s);
    if chars.len() == 7 && lower_is(chars[0], 'd') && lower_is(chars[1], 'e') && lower_is(
        chars[2],
        'f',
    ) && lower_is(chars[3], 'a') && lower_is(chars[4], 'u') && lower_is(chars[5], 'l')
        && lower_is(chars[6], 't') {
        assert(eq_ignore_ascii_case(s@, default_word()));
        let key = KeyNumber::from_u8_lossy(69);
        return Ok(Reference::new(key, key, vec!['4', '4', '0']));
    }
    assert(!eq_ignore_ascii_case(s@, default_word())) by {
        if eq_ignore_ascii_case(s@, default_word()) {
            assert(ascii_lower(s@[0]) == 'd');
            assert(ascii_lower(s@[1]) == 'e');
            assert(ascii_lower(s@[2]) == 'f');
            assert(ascii_lower(s@[3]) == 'a');
            assert(ascii_lower(s@[4]) == 'u');
            assert(ascii_lower(s@[5]) == 'l');
            assert(ascii_lower(s@[6]) == 't');
        }
    }
    let parts = split_fields(chars.as_slice(), ',');
    assert(views(parts@).len() == parts@.len());
    if parts.len() != 3 {
        return Err(ReferenceError::InvalidReference);
    }
    assert(views(parts@)[0] == parts@[0]@);
    assert(views(parts@)[1] == parts@[1]@);
    assert(views(parts@)[2] == parts@[2]@);
    let zero_key = match parse_key(&parts[0]) {
        Some(k) => k,
        None => return Err(ReferenceError::InvalidZeroKey),
    };
    let reference_key = match parse_key(&parts[1]) {
        Some(k) => k,
        None => return Err(ReferenceError::InvalidReferenceKey),
    };
    if !is_float_chars(parts[2].as_slice()) {
        return Err(ReferenceError::InvalidReferenceFrequency);
    }
    let mut parts = parts;
    let frequency = parts.pop().unwrap();
    Ok(Reference::new(zero_key, reference_key, frequency))
}

/// A key number written in decimal is accepted exactly when it is at most
/// 127, and then read as itself.
pub proof fn law_key_numbers_read_back(n: nat)
    ensures
        key_value(decimal_text(n)) == if n <= 127 {
            Some(n as u8)
        } else {
            None::<u8>
        },
{
    law_decimal_text_read_back(n, 255);
}

} // verus!
