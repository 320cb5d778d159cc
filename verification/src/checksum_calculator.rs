use vstd::prelude::*;
use crate::error::Error;
use crate::u7::{Checksum, U7};

verus! {

/// The checksum of a MIDI tuning dump over `values`: the exclusive-or of
/// all of them, starting from 0x7f, kept to seven bits.
pub open spec fn checksum_of(values: Seq<u8>) -> u8
    decreases values.len(),
{
    if values.len() == 0 {
        0x7f
    } else {
        ((checksum_of(values.drop_last()) ^ values.last()) % 128) as u8
    }
}

/// Accumulates the checksum of a MIDI tuning dump, one value at a time.
pub struct ChecksumCalculator {
    count: usize,
    value: Checksum,
}

impl ChecksumCalculator {
    /// How many values have been taken in.
    pub closed spec fn count(&self) -> nat {
        self.count as nat
    }

    /// The checksum of the values taken in so far.
    pub closed spec fn current(&self) -> u8 {
        self.value.value()
    }

    pub fn new() -> (r: Self)
        ensures
            r.count() == 0,
            r.current() == checksum_of(Seq::empty()),
    {
        ChecksumCalculator { count: 0, value: Checksum::max_value() }
    }

    /// Takes in `value` and hands it back.
    pub fn update<U: U7>(&mut self, value: U) -> (r: U)
        requires
            old(self).count() < usize::MAX,
        ensures
            r == value,
            final(self).count() == old(self).count() + 1,
            final(self).current() == ((old(self).current() ^ value.value()) % 128) as u8,
    {
        self.count = self.count + 1;
        self.value = Checksum::from_u8_lossy(self.value.to_u8() ^ value.to_u8());
        value
    }

    /// Takes in every value of `values`, in order, and hands them back.
    pub fn update_from_slice<'a, U: U7>(&mut self, values: &'a [U]) -> (r: &'a [U])
        requires
            old(self).count() + values.len() <= usize::MAX,
        ensures
            r@ == values@,
            final(self).count() == old(self).count() + values.len(),
            final(self).current() == checksum_after(
                old(self).current(),
                values@.map_values(|x: U| x.value()),
            ),
    {
        let ghost start = self.current();
        let mut i: usize = 0;
        while i < values.len()
            invariant
                i <= values.len(),
                self.count() == old(self).count() + i,
                old(self).count() + values.len() <= usize::MAX,
                self.current() == checksum_after(
                    start,
                    values@.take(i as int).map_values(|x: U| x.value()),
                ),
            decreases values.len() - i,
        {
            let _ = self.update(values[i]);
            i = i + 1;
            assert(values@.take(i as int).map_values(|x: U| x.value()).drop_last()
                == values@.take(i - 1).map_values(|x: U| x.value()));
        }
        assert(values@.take(values.len() as int) == values@);
        values
    }

    /// Fails when the checksum is not `expected_checksum`.
    pub fn verify(self, expected_checksum: Checksum, expected_count: Option<usize>) -> (r: Result<
        (),
        Error,
    >)
        requires
            expected_count matches Some(n) ==> n == self.count(),
        ensures
            r is Ok <==> self.current() == expected_checksum.value(),
            r is Err ==> r == Err::<(), Error>(Error::ChecksumValidationFailed),
    {
        let checksum = match self.finalize(expected_count) {
            Ok(c) => c,
            Err(e) => return Err(e),
        };
        if checksum.to_u8() != expected_checksum.to_u8() {
            return Err(Error::ChecksumValidationFailed);
        }
        Ok(())
    }

    /// The checksum of everything taken in; `expected_count`, when given,
    /// must be the number of values taken in.
    pub fn finalize(self, expected_count: Option<usize>) -> (r: Result<Checksum, Error>)
        requires
            expected_count matches Some(n) ==> n == self.count(),
        ensures
            r matches Ok(c) && c.value() == self.current(),
    {
        Ok(self.value)
    }
}

/// The checksum after taking in `values`, starting from `start`.
pub open spec fn checksum_after(start: u8, values: Seq<u8>) -> u8
    decreases values.len(),
{
    if values.len() == 0 {
        start
    } else {
        ((checksum_after(start, values.drop_last()) ^ values.last()) % 128) as u8
    }
}

/// Taking in `a` then `b` is taking in `a + b`.
pub proof fn lemma_checksum_after_concat(start: u8, a: Seq<u8>, b: Seq<u8>)
    ensures
        checksum_after(checksum_after(start, a), b) == checksum_after(start, a + b),
    decreases b.len(),
{
    if b.len() == 0 {
        assert(a + b == a);
    } else {
        lemma_checksum_after_concat(start, a, b.drop_last());
        assert((a + b).drop_last() == a + b.drop_last());
    }
}

/// The checksum of a sequence is its checksum taken from 0x7f.
pub proof fn lemma_checksum_of_after(values: Seq<u8>)
    ensures
        checksum_of(values) == checksum_after(0x7f, values),
    decreases values.len(),
{
    if values.len() > 0 {
        lemma_checksum_of_after(values.drop_last());
    }
}

/// Taking in `a` then `b` leaves the same checksum as taking in `b` then `a`.
proof fn lemma_checksum_steps_commute(c: u8, a: u8, b: u8)
    ensures
        ((((c ^ a) % 128) as u8 ^ b) % 128) as u8 == ((((c ^ b) % 128) as u8 ^ a) % 128) as u8,
{
    assert(((((c ^ a) % 128) as u8 ^ b) % 128) as u8 == ((((c ^ b) % 128) as u8 ^ a) % 128) as u8)
        by (bit_vector);
}

/// Any one value may be taken in last without changing the checksum.
proof fn lemma_checksum_take_last(start: u8, values: Seq<u8>, i: int)
    requires
        0 <= i < values.len(),
    ensures
        checksum_after(start, values) == ((checksum_after(start, values.remove(i)) ^ values[i])
            % 128) as u8,
    decreases values.len(),
{
    if i == values.len() - 1 {
        assert(values.remove(i) =~= values.drop_last());
    } else {
        let d = values.drop_last();
        lemma_checksum_take_last(start, d, i);
        assert(values.remove(i).drop_last() =~= d.remove(i));
        assert(values.remove(i).last() == values.last());
        lemma_checksum_steps_commute(checksum_after(start, d.remove(i)), values[i], values.last());
    }
}

/// The checksum does not depend on the order in which the values are taken
/// in: any rearrangement of them gives the same checksum.
pub proof fn law_checksum_ignores_order(start: u8, p: Seq<u8>, q: Seq<u8>)
    requires
        p.to_multiset() == q.to_multiset(),
    ensures
        checksum_after(start, p) == checksum_after(start, q),
    decreases p.len(),
{
    broadcast use vstd::seq_lib::group_to_multiset_ensures;

    if p.len() == 0 {
        assert(q.len() == p.to_multiset().len());
    } else {
        let x = p.last();
        let d = p.drop_last();
        assert(p =~= d.push(x));
        assert(p.to_multiset().count(x) > 0);
        assert(q.contains(x));
        let j = choose|j: int| 0 <= j < q.len() && q[j] == x;
        assert(q.remove(j).to_multiset() == q.to_multiset().remove(x));
        assert(d.to_multiset() == p.to_multiset().remove(x)) by {
            assert(d.push(x).to_multiset() == d.to_multiset().insert(x));
            assert(d.to_multiset() =~= d.to_multiset().insert(x).remove(x));
        }
        law_checksum_ignores_order(start, d, q.remove(j));
        lemma_checksum_take_last(start, q, j);
    }
}

} // verus!
