use vstd::prelude::*;
use crate::u7::{Lsb, Msb, NoteNumber, U7};

verus! {

/// One MIDI Tuning Standard frequency: a note number and a fraction of a
/// semitone above it in fourteen bits, split into high and low halves.
#[derive(Clone, Copy, Debug, PartialEq, Eq, Structural)]
pub struct MtsEntry {
    pub note_number: NoteNumber,
    pub msb: Msb,
    pub lsb: Lsb,
}

impl MtsEntry {
    /// The three bytes of the entry.
    pub open spec fn bytes(self) -> (u8, u8, u8) {
        (self.note_number.value(), self.msb.value(), self.lsb.value())
    }

    /// The pitch in units of 1/16384 semitone above note 0. The code
    /// 127/127/127 is reserved, so the pitch of note 127 with both halves
    /// at 127 is read as though the low half were 126.
    pub open spec fn spec_fixed_point_semitones(self) -> nat {
        let (n, m, l) = self.bytes();
        let l = if n == 127 && l == 127 { 126 } else { l };
        n as nat * 16384 + m as nat * 128 + l as nat
    }

    /// The pitch in units of 1/16384 semitone above note 0; dividing by
    /// 16384 gives semitones.
    pub fn to_fixed_point_semitones(&self) -> (r: u32)
        ensures
            r == self.spec_fixed_point_semitones(),
    {
        let n = self.note_number.to_u8() as u32;
        let m = self.msb.to_u8() as u32;
        let l = if self.note_number.is_max() && self.lsb.is_max() {
            126u32
        } else {
            self.lsb.to_u8() as u32
        };
        n * 16384 + m * 128 + l
    }
}

/// The highest pitch an entry can hold, in units of 1/16384 semitone: note
/// 127 with both halves of the fraction at 127 is reserved, so 127/127/126.
pub const MAX_FIXED_POINT_SEMITONES: u32 = 2097150;

/// The entry of the pitch `v` (in units of 1/16384 semitone above note 0),
/// with pitches above the highest one held at the highest.
pub open spec fn entry_of_fixed_point(v: nat) -> (u8, u8, u8) {
    let w = if v > MAX_FIXED_POINT_SEMITONES {
        MAX_FIXED_POINT_SEMITONES as nat
    } else {
        v
    };
    ((w / 16384) as u8, ((w % 16384) / 128) as u8, (w % 128) as u8)
}

impl MtsEntry {
    /// The entry for the pitch `v`, in units of 1/16384 semitone above note
    /// 0; higher pitches are held at the highest.
    pub fn from_fixed_point_semitones(v: u32) -> (r: MtsEntry)
        ensures
            r.bytes() == entry_of_fixed_point(v as nat),
    {
        let w = if v > MAX_FIXED_POINT_SEMITONES {
            MAX_FIXED_POINT_SEMITONES
        } else {
            v
        };
        let n = w / 16384;
        let m = (w % 16384) / 128;
        let l = w % 128;
        assert(n < 128 && m < 128 && l < 128);
        MtsEntry {
            note_number: NoteNumber::from_u8_lossy(n as u8),
            msb: Msb::from_u8_lossy(m as u8),
            lsb: Lsb::from_u8_lossy(l as u8),
        }
    }
}

/// An entry read as a pitch and written back is the same entry, but for
/// note 127 with the low half at 127, which is read (and so comes back) with
/// the low half at 126.
pub proof fn law_fixed_point_round_trip(e: MtsEntry)
    ensures
        entry_of_fixed_point(e.spec_fixed_point_semitones()) == if e.bytes().0 == 127
            && e.bytes().2 == 127 {
            (127u8, e.bytes().1, 126u8)
        } else {
            e.bytes()
        },
{
    let (n, m, l) = e.bytes();
    e.note_number.value_in_range();
    e.msb.value_in_range();
    e.lsb.value_in_range();
    let l2: nat = if n == 127 && l == 127 { 126 } else { l as nat };
    let v = n as nat * 16384 + m as nat * 128 + l2;
    assert(v == e.spec_fixed_point_semitones());
    assert(v <= MAX_FIXED_POINT_SEMITONES);
    assert(v / 16384 == n as nat && (v % 16384) / 128 == m as nat && v % 128 == l2) by (nonlinear_arith)
        requires
            v == n as nat * 16384 + m as nat * 128 + l2,
            n < 128,
            m < 128,
            l2 < 128,
    ;
}

/// A pitch written as an entry and read back is the same pitch, held at the
/// highest one.
pub proof fn law_entry_keeps_pitch(v: nat)
    ensures
        ({
            let (n, m, l) = entry_of_fixed_point(v);
            n as nat * 16384 + m as nat * 128 + l as nat == if v > MAX_FIXED_POINT_SEMITONES {
                MAX_FIXED_POINT_SEMITONES as nat
            } else {
                v
            }
        }),
{
    let w = if v > MAX_FIXED_POINT_SEMITONES {
        MAX_FIXED_POINT_SEMITONES as nat
    } else {
        v
    };
    assert((w / 16384) * 16384 + ((w % 16384) / 128) * 128 + w % 128 == w) by (nonlinear_arith)
        requires
            w <= MAX_FIXED_POINT_SEMITONES,
    ;
}

} // verus!
