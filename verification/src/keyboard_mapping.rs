use vstd::prelude::*;
use crate::error::Error;
use crate::u7::{KeyNumber, U7};

verus! {

/// Where a tuning is anchored: the key that plays the first degree of the
/// scale (the unison), and the key that sounds at a given frequency.
///
/// The frequency is carried, not computed with, so its type is left to the
/// user.
#[derive(Debug)]
pub struct Reference<F> {
    zero_key: KeyNumber,
    reference_key: KeyNumber,
    reference_frequency: F,
}

impl<F> Reference<F> {
    pub closed spec fn spec_zero_key(&self) -> u8 {
        self.zero_key.value()
    }

    pub closed spec fn spec_reference_key(&self) -> u8 {
        self.reference_key.value()
    }

    pub closed spec fn spec_reference_frequency(&self) -> F {
        self.reference_frequency
    }

    pub fn new(zero_key: KeyNumber, reference_key: KeyNumber, reference_frequency: F) -> (r: Self)
        ensures
            r.spec_zero_key() == zero_key.value(),
            r.spec_reference_key() == reference_key.value(),
            r.spec_reference_frequency() == reference_frequency,
    {
        Reference { zero_key, reference_key, reference_frequency }
    }

    pub fn zero_key(&self) -> (r: KeyNumber)
        ensures
            r.value() == self.spec_zero_key(),
    {
        self.zero_key
    }

    pub fn reference_key(&self) -> (r: KeyNumber)
        ensures
            r.value() == self.spec_reference_key(),
    {
        self.reference_key
    }

    pub fn reference_frequency(&self) -> (r: &F)
        ensures
            *r == self.spec_reference_frequency(),
    {
        &self.reference_frequency
    }
}

/// What one key of a keyboard mapping plays.
#[derive(Clone, Copy, Debug, PartialEq, Eq, Structural)]
pub enum KeyMapping {
    /// The given degree of the scale.
    Degree(usize),
    /// Nothing.
    Unmapped,
}

/// How keys are assigned to scale degrees.
#[derive(Debug)]
pub enum KeyMappings {
    /// Consecutive keys play consecutive degrees.
    Linear,
    /// One pattern of keys, repeated every equave.
    Custom(Vec<KeyMapping>),
}

/// A range of keys, a reference and an assignment of keys to degrees.
#[derive(Debug)]
pub struct KeyboardMapping<F> {
    start_key: KeyNumber,
    end_key: KeyNumber,
    reference: Reference<F>,
    key_mappings: KeyMappings,
}

impl<F> KeyboardMapping<F> {
    #[verifier::type_invariant]
    spec fn inv(self) -> bool {
        self.start_key.value() <= self.end_key.value()
    }

    pub closed spec fn spec_start_key(&self) -> u8 {
        self.start_key.value()
    }

    pub closed spec fn spec_end_key(&self) -> u8 {
        self.end_key.value()
    }

    pub closed spec fn spec_reference(&self) -> Reference<F> {
        self.reference
    }

    pub closed spec fn spec_key_mappings(&self) -> KeyMappings {
        self.key_mappings
    }

    /// Fails when `end_key` comes before `start_key`.
    pub fn new(
        start_key: KeyNumber,
        end_key: KeyNumber,
        reference: Reference<F>,
        key_mappings: KeyMappings,
    ) -> (r: Result<Self, Error>)
        ensures
            end_key.value() < start_key.value() ==> (r matches Err(e) && e == Error::InvalidEndKey),
            end_key.value() >= start_key.value() ==> (r matches Ok(x) && x.spec_start_key()
                == start_key.value() && x.spec_end_key() == end_key.value() && x.spec_reference()
                == reference && x.spec_key_mappings() == key_mappings),
    {
        if end_key.checked_sub(start_key).is_none() {
            return Err(Error::InvalidEndKey);
        }
        Ok(KeyboardMapping { start_key, end_key, reference, key_mappings })
    }

    /// All 128 keys.
    pub fn new_full(reference: Reference<F>, key_mappings: KeyMappings) -> (r: Result<Self, Error>)
        ensures
            r matches Ok(x) && x.spec_start_key() == 0 && x.spec_end_key() == 127
                && x.spec_reference() == reference && x.spec_key_mappings() == key_mappings,
    {
        Self::new(KeyNumber::zero(), KeyNumber::max_value(), reference, key_mappings)
    }

    /// All 128 keys, consecutive keys playing consecutive degrees.
    pub fn new_full_linear(reference: Reference<F>) -> (r: Result<Self, Error>)
        ensures
            r matches Ok(x) && x.spec_start_key() == 0 && x.spec_end_key() == 127
                && x.spec_reference() == reference && x.spec_key_mappings() == KeyMappings::Linear,
    {
        Self::new_full(reference, KeyMappings::Linear)
    }

    pub fn start_key(&self) -> (r: &KeyNumber)
        ensures
            r.value() == self.spec_start_key(),
            r.value() <= self.spec_end_key(),
    {
        proof {
            use_type_invariant(self);
        }
        &self.start_key
    }

    pub fn end_key(&self) -> (r: &KeyNumber)
        ensures
            r.value() == self.spec_end_key(),
    {
        &self.end_key
    }

    pub fn reference(&self) -> (r: &Reference<F>)
        ensures
            *r == self.spec_reference(),
    {
        &self.reference
    }

    pub fn key_mappings(&self) -> (r: &KeyMappings)
        ensures
            *r == self.spec_key_mappings(),
    {
        &self.key_mappings
    }
}

impl<F: Clone> Clone for Reference<F> {
    /// A copy with the same keys and a clone of the frequency.
    fn clone(&self) -> (r: Self)
        ensures
            r.spec_zero_key() == self.spec_zero_key(),
            r.spec_reference_key() == self.spec_reference_key(),
            cloned(self.spec_reference_frequency(), r.spec_reference_frequency()),
    {
        Reference {
            zero_key: self.zero_key,
            reference_key: self.reference_key,
            reference_frequency: self.reference_frequency.clone(),
        }
    }
}

impl View for KeyMappings {
    /// `None` for a linear mapping, else the entries of the pattern.
    type V = Option<Seq<KeyMapping>>;

    open spec fn view(&self) -> Option<Seq<KeyMapping>> {
        match self {
            KeyMappings::Linear => None,
            KeyMappings::Custom(v) => Some(v@),
        }
    }
}

impl Clone for KeyMappings {
    fn clone(&self) -> (r: Self)
        ensures
            r@ == self@,
    {
        match self {
            KeyMappings::Linear => KeyMappings::Linear,
            KeyMappings::Custom(v) => {
                let mut w: Vec<KeyMapping> = Vec::new();
                let mut i: usize = 0;
                while i < v.len()
                    invariant
                        i <= v@.len(),
                        w@ == v@.take(i as int),
                    decreases v.len() - i,
                {
                    w.push(v[i]);
                    i = i + 1;
                    assert(w@ =~= v@.take(i as int));
                }
                assert(v@.take(v.len() as int) =~= v@);
                assert(w@ == v@);
                KeyMappings::Custom(w)
            },
        }
    }
}

impl<F: Clone> Clone for KeyboardMapping<F> {
    /// A copy with the same keys and mapping entries and a clone of the
    /// reference.
    fn clone(&self) -> (r: Self)
        ensures
            r.spec_start_key() == self.spec_start_key(),
            r.spec_end_key() == self.spec_end_key(),
            r.spec_reference().spec_zero_key() == self.spec_reference().spec_zero_key(),
            r.spec_reference().spec_reference_key() == self.spec_reference().spec_reference_key(),
            cloned(
                self.spec_reference().spec_reference_frequency(),
                r.spec_reference().spec_reference_frequency(),
            ),
            r.spec_key_mappings()@ == self.spec_key_mappings()@,
    {
        proof {
            use_type_invariant(self);
        }
        KeyboardMapping {
            start_key: self.start_key,
            end_key: self.end_key,
            reference: self.reference.clone(),
            key_mappings: self.key_mappings.clone(),
        }
    }
}

} // verus!
