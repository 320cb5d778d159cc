use vstd::prelude::*;
use crate::consts::{MIDI_TUNING, NOTE_CHANGE, UNIVERSAL_REAL_TIME};
use crate::error::Error;
use crate::midi_message_builder::MidiMessageBuilder;
use crate::mts_entry::MtsEntry;
use crate::u7::{DeviceId, KeyNumber, MidiValue, Preset, U7};

verus! {

/// The new tuning of one key.
#[derive(Clone, Copy, Debug, PartialEq, Eq, Structural)]
pub struct NoteChangeEntry {
    pub key_number: KeyNumber,
    pub mts: MtsEntry,
}

impl NoteChangeEntry {
    /// The four bytes of the entry: key, then the MTS entry.
    pub open spec fn bytes(self) -> Seq<u8> {
        seq![self.key_number.value(), self.mts.bytes().0, self.mts.bytes().1, self.mts.bytes().2]
    }
}

/// The entries written one after another, four bytes each.
pub open spec fn note_change_entries_bytes(entries: Seq<NoteChangeEntry>) -> Seq<u8>
    decreases entries.len(),
{
    if entries.len() == 0 {
        Seq::empty()
    } else {
        note_change_entries_bytes(entries.drop_last()) + entries.last().bytes()
    }
}

/// The values of a single note tuning change message, without the SysEx
/// start and end bytes.
pub open spec fn note_change_body(device_id: u8, preset: u8, entries: Seq<NoteChangeEntry>) -> Seq<
    u8,
> {
    seq![
        UNIVERSAL_REAL_TIME,
        device_id,
        MIDI_TUNING,
        NOTE_CHANGE,
        preset,
        entries.len() as u8,
    ] + note_change_entries_bytes(entries)
}

/// A MIDI Tuning Standard single note tuning change (real time): new
/// tunings for up to 127 keys.
#[derive(Debug)]
pub struct NoteChange {
    device_id: DeviceId,
    preset: Preset,
    entries: Vec<NoteChangeEntry>,
}

impl NoteChange {
    #[verifier::type_invariant]
    spec fn inv(self) -> bool {
        self.entries@.len() <= 127
    }

    pub closed spec fn spec_device_id(&self) -> u8 {
        self.device_id.value()
    }

    pub closed spec fn spec_preset(&self) -> u8 {
        self.preset.value()
    }

    pub closed spec fn spec_entries(&self) -> Seq<NoteChangeEntry> {
        self.entries@
    }

    /// Fails when there are more than 127 entries.
    pub fn new(device_id: DeviceId, preset: Preset, entries: &[NoteChangeEntry]) -> (r: Result<
        Self,
        Error,
    >)
        ensures
            entries@.len() > 127 ==> r == Err::<Self, Error>(Error::TooManyNoteChanges),
            entries@.len() <= 127 ==> (r matches Ok(x) && x.spec_device_id() == device_id.value()
                && x.spec_preset() == preset.value() && x.spec_entries() == entries@),
    {
        if entries.len() > 127 {
            return Err(Error::TooManyNoteChanges);
        }
        let mut v: Vec<NoteChangeEntry> = Vec::new();
        let mut i: usize = 0;
        while i < entries.len()
            invariant
                i <= entries.len(),
                v@ == entries@.take(i as int),
            decreases entries.len() - i,
        {
            v.push(entries[i]);
            i = i + 1;
            assert(v@ =~= entries@.take(i as int));
        }
        assert(entries@.take(entries.len() as int) =~= entries@);
        Ok(NoteChange { device_id, preset, entries: v })
    }

    pub fn device_id(&self) -> (r: DeviceId)
        ensures
            r.value() == self.spec_device_id(),
    {
        self.device_id
    }

    pub fn preset(&self) -> (r: Preset)
        ensures
            r.value() == self.spec_preset(),
    {
        self.preset
    }

    pub fn entries(&self) -> (r: &Vec<NoteChangeEntry>)
        ensures
            r@ == self.spec_entries(),
    {
        &self.entries
    }

    /// The values of the message between the SysEx start and end bytes.
    pub fn to_vec(&self) -> (r: Result<Vec<MidiValue>, Error>)
        ensures
            r matches Ok(v) && v@.map_values(|x: MidiValue| x.value()) == note_change_body(
                self.spec_device_id(),
                self.spec_preset(),
                self.spec_entries(),
            ),
    {
        proof {
            use_type_invariant(self);
        }
        let entry_count = self.entries.len();
        let message_len = 6 + entry_count * 4;
        let count = MidiValue::from_u8_lossy(entry_count as u8);

        let mut values = MidiMessageBuilder::with_required_len(message_len);
        let _ = values.push(MidiValue::constant::<UNIVERSAL_REAL_TIME>());
        let _ = values.push(self.device_id);
        let _ = values.push(MidiValue::constant::<MIDI_TUNING>());
        let _ = values.push(MidiValue::constant::<NOTE_CHANGE>());
        let _ = values.push(self.preset);
        let _ = values.push(count);
        let ghost header = values.values();
        assert(header =~= seq![
            UNIVERSAL_REAL_TIME,
            self.spec_device_id(),
            MIDI_TUNING,
            NOTE_CHANGE,
            self.spec_preset(),
            entry_count as u8,
        ]);

        let mut i: usize = 0;
        while i < entry_count
            invariant
                entry_count == self.entries@.len(),
                entry_count <= 127,
                i <= entry_count,
                values.required_len() == message_len,
                message_len == 6 + entry_count * 4,
                values.values() == header + note_change_entries_bytes(self.entries@.take(i as int)),
            decreases entry_count - i,
        {
            let e = &self.entries[i];
            let _ = values.push(e.key_number);
            let _ = values.push(e.mts.note_number);
            let _ = values.push(e.mts.msb);
            let _ = values.push(e.mts.lsb);
            assert(self.entries@.take(i + 1).drop_last() =~= self.entries@.take(i as int));
            i = i + 1;
            assert(values.values() =~= header + note_change_entries_bytes(
                self.entries@.take(i as int),
            ));
        }
        assert(self.entries@.take(entry_count as int) =~= self.entries@);
        proof {
            lemma_note_change_entries_bytes_len(self.entries@);
        }
        values.finalize()
    }
}

pub proof fn lemma_note_change_entries_bytes_len(entries: Seq<NoteChangeEntry>)
    ensures
        note_change_entries_bytes(entries).len() == 4 * entries.len(),
    decreases entries.len(),
{
    if entries.len() > 0 {
        lemma_note_change_entries_bytes_len(entries.drop_last());
    }
}

} // verus!
