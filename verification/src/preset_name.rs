use vstd::prelude::*;
use crate::error::Error;
use crate::text::chars_of;
use crate::u7::{Char7, U7};

verus! {

broadcast use vstd::string::group_string_axioms;

/// The number of characters in a preset name.
pub const PRESET_NAME_LEN: usize = 16;

/// The sixteen seven-bit characters that name a tuning preset.
#[derive(Debug)]
pub struct PresetName(Vec<Char7>);

impl PresetName {
    #[verifier::type_invariant]
    spec fn inv(self) -> bool {
        self.0@.len() == PRESET_NAME_LEN
    }

    /// The character codes of the name.
    pub closed spec fn bytes(&self) -> Seq<u8> {
        self.0@.map_values(|c: Char7| c.value())
    }

    pub fn new(chars: Vec<Char7>) -> (r: Self)
        requires
            chars@.len() == PRESET_NAME_LEN,
        ensures
            r.bytes() == chars@.map_values(|c: Char7| c.value()),
    {
        PresetName(chars)
    }

    pub fn as_array(&self) -> (r: &[Char7])
        ensures
            r@.len() == PRESET_NAME_LEN,
            r@.map_values(|c: Char7| c.value()) == self.bytes(),
    {
        proof {
            use_type_invariant(self);
        }
        self.0.as_slice()
    }

    /// The name spelled by the ASCII text `s`, padded with zero bytes.
    pub fn from_str(s: &str) -> (r: Result<Self, Error>)
        ensures
            !s.is_ascii() ==> r == Err::<Self, Error>(Error::PresetNameNotAscii),
            s.is_ascii() && s@.len() > PRESET_NAME_LEN ==> r == Err::<Self, Error>(
                Error::InvalidPresetName,
            ),
            s.is_ascii() && s@.len() <= PRESET_NAME_LEN ==> (r matches Ok(n) && n.bytes()
                == padded_name(s@)),
    {
        if !s.is_ascii() {
            return Err(Error::PresetNameNotAscii);
        }
        let chars = chars_of(s);
        if chars.len() > PRESET_NAME_LEN {
            return Err(Error::InvalidPresetName);
        }
        let mut array: Vec<Char7> = Vec::new();
        let mut i: usize = 0;
        while i < PRESET_NAME_LEN
            invariant
                i <= PRESET_NAME_LEN,
                chars@ == s@,
                chars@.len() <= PRESET_NAME_LEN,
                vstd::utf8::is_ascii_chars(s@),
                array@.len() == i,
                forall|j: int|
                    0 <= j < i ==> (#[trigger] array@[j]).value() == padded_name(s@)[j],
            decreases PRESET_NAME_LEN - i,
        {
            if i < chars.len() {
                let c = chars[i];
                array.push(Char7::from_u8_lossy(c as u8));
                assert((c as u8) < 128);
            } else {
                array.push(Char7::zero());
            }
            i = i + 1;
        }
        let r = PresetName(array);
        assert(r.bytes() =~= padded_name(s@));
        Ok(r)
    }
}

/// The codes of the characters of `s`, followed by zero bytes up to sixteen.
pub open spec fn padded_name(s: Seq<char>) -> Seq<u8> {
    Seq::new(PRESET_NAME_LEN as nat, |i: int| if i < s.len() { s[i] as u8 } else { 0u8 })
}

} // verus!
