use vstd::prelude::*;
use crate::error::Error;
use crate::u7::{MidiValue, U7};

verus! {

/// Collects the values of a MIDI message that must have a given length.
pub struct MidiMessageBuilder {
    required_len: usize,
    values: Vec<MidiValue>,
}

impl MidiMessageBuilder {
    pub closed spec fn required_len(&self) -> nat {
        self.required_len as nat
    }

    /// The values pushed so far.
    pub closed spec fn values(&self) -> Seq<u8> {
        self.values@.map_values(|x: MidiValue| x.value())
    }

    pub fn with_required_len(required_len: usize) -> (r: Self)
        ensures
            r.required_len() == required_len,
            r.values() == Seq::<u8>::empty(),
    {
        MidiMessageBuilder { required_len, values: Vec::new() }
    }

    /// Appends `value` and hands it back.
    pub fn push<U: U7>(&mut self, value: U) -> (r: U)
        ensures
            r == value,
            final(self).required_len() == old(self).required_len(),
            final(self).values() == old(self).values().push(value.value()),
    {
        let v = MidiValue::from_u8_lossy(value.to_u8());
        self.values.push(v);
        assert(self.values@.map_values(|x: MidiValue| x.value()) == old(self).values().push(
            value.value(),
        ));
        value
    }

    /// Appends every value of `other`, in order.
    pub fn extend_from_slice<U: U7>(&mut self, other: &[U])
        ensures
            final(self).required_len() == old(self).required_len(),
            final(self).values() == old(self).values() + other@.map_values(|x: U| x.value()),
    {
        let mut i: usize = 0;
        while i < other.len()
            invariant
                i <= other.len(),
                self.required_len() == old(self).required_len(),
                self.values() == old(self).values() + other@.take(i as int).map_values(
                    |x: U| x.value(),
                ),
            decreases other.len() - i,
        {
            let _ = self.push(other[i]);
            i = i + 1;
            assert(other@.take(i as int).map_values(|x: U| x.value()) == other@.take(
                i - 1,
            ).map_values(|x: U| x.value()).push(other@[i - 1].value()));
        }
        assert(other@.take(other.len() as int) == other@);
    }

    /// The values, when there are exactly as many as required.
    pub fn finalize(self) -> (r: Result<Vec<MidiValue>, Error>)
        ensures
            self.values().len() == self.required_len() ==> (r matches Ok(v) && v@.map_values(
                |x: MidiValue| x.value(),
            ) == self.values()),
            self.values().len() != self.required_len() ==> r == Err::<Vec<MidiValue>, Error>(
                Error::UnexpectedMessageLength,
            ),
    {
        if self.values.len() != self.required_len {
            return Err(Error::UnexpectedMessageLength);
        }
        Ok(self.values)
    }
}

} // verus!
