use vstd::prelude::*;
use crate::checksum_calculator::{
    checksum_after, checksum_of, lemma_checksum_after_concat, lemma_checksum_of_after,
    ChecksumCalculator,
};
use crate::consts::{
    BULK_DUMP_REPLY, BULK_DUMP_REPLY_CHECKSUM_COUNT, BULK_DUMP_REPLY_MESSAGE_SIZE, EOX,
    MIDI_TUNING, SYSEX, UNIVERSAL_NON_REAL_TIME,
};
use crate::error::Error;
use crate::midi_message_builder::MidiMessageBuilder;
use crate::mts_entry::MtsEntry;
use crate::preset_name::{PresetName, PRESET_NAME_LEN};
use crate::read::{
    first_u7_error, lemma_first_u7_error_extends, lemma_first_u7_error_none,
    lemma_first_u7_error_none_from, lemma_first_u7_error_split, read, read_multi, read_u8, u7_error_at,
};
use crate::u7::{Char7, Checksum, DeviceId, Lsb, MidiValue, Msb, NoteNumber, Preset, U7};

verus! {

/// The number of entries in a bulk dump reply, one per MIDI note.
pub const ENTRIES_LEN: usize = 128;

/// The contents of a bulk dump reply as plain numbers.
pub struct BulkDumpView {
    pub device_id: u8,
    pub preset: u8,
    pub name: Seq<u8>,
    pub entries: Seq<(u8, u8, u8)>,
}

impl BulkDumpView {
    /// Every part has its length and every number fits in seven bits.
    pub open spec fn wf(self) -> bool {
        &&& self.device_id < 128
        &&& self.preset < 128
        &&& self.name.len() == PRESET_NAME_LEN
        &&& forall|i: int| 0 <= i < self.name.len() ==> #[trigger] self.name[i] < 128
        &&& self.entries.len() == ENTRIES_LEN
        &&& forall|k: int|
            0 <= k < self.entries.len() ==> (#[trigger] self.entries[k]).0 < 128
                && self.entries[k].1 < 128 && self.entries[k].2 < 128
    }
}

/// The entries written one after another, three bytes each.
pub open spec fn entries_bytes(entries: Seq<(u8, u8, u8)>) -> Seq<u8>
    decreases entries.len(),
{
    if entries.len() == 0 {
        Seq::empty()
    } else {
        entries_bytes(entries.drop_last()) + seq![
            entries.last().0,
            entries.last().1,
            entries.last().2,
        ]
    }
}

/// The values that the checksum covers: everything after the SysEx start
/// byte and before the checksum.
pub open spec fn bulk_dump_body(v: BulkDumpView) -> Seq<u8> {
    seq![UNIVERSAL_NON_REAL_TIME, v.device_id, MIDI_TUNING, BULK_DUMP_REPLY, v.preset] + v.name
        + entries_bytes(v.entries)
}

/// The complete bulk dump reply message for `v`, from SysEx start to end.
pub open spec fn bulk_dump_bytes(v: BulkDumpView) -> Seq<u8> {
    seq![SYSEX] + bulk_dump_body(v) + seq![checksum_of(bulk_dump_body(v)), EOX]
}

/// Reading a bulk dump reply from `b`, the first problem met, if any.
pub open spec fn bulk_dump_error(b: Seq<u8>) -> Option<Error> {
    if b.len() == 0 {
        Some(Error::ReadFailed)
    } else if b[0] != SYSEX {
        Some(Error::UnsupportedHeader)
    } else if u7_error_at(b, 1) is Some {
        u7_error_at(b, 1)
    } else if b[1] != UNIVERSAL_NON_REAL_TIME {
        Some(Error::UnsupportedHeader)
    } else if u7_error_at(b, 2) is Some {
        u7_error_at(b, 2)
    } else if u7_error_at(b, 3) is Some {
        u7_error_at(b, 3)
    } else if b[3] != MIDI_TUNING {
        Some(Error::ExpectedMidiTuning)
    } else if u7_error_at(b, 4) is Some {
        u7_error_at(b, 4)
    } else if b[4] != BULK_DUMP_REPLY {
        Some(Error::ExpectedBulkDumpReply)
    } else if first_u7_error(b, 5, 406) is Some {
        first_u7_error(b, 5, 406)
    } else if u7_error_at(b, 406) is Some {
        u7_error_at(b, 406)
    } else if b.len() <= 407 {
        Some(Error::ReadFailed)
    } else if b[407] != EOX {
        Some(Error::EoxNotFound)
    } else if checksum_of(b.subrange(1, 406)) != b[406] {
        Some(Error::ChecksumValidationFailed)
    } else {
        None
    }
}

/// The contents that a bulk dump reply read from `b` holds.
pub open spec fn bulk_dump_fields(b: Seq<u8>) -> BulkDumpView {
    BulkDumpView {
        device_id: b[2],
        preset: b[5],
        name: b.subrange(6, 22),
        entries: Seq::new(
            ENTRIES_LEN as nat,
            |k: int| (b[22 + 3 * k], b[23 + 3 * k], b[24 + 3 * k]),
        ),
    }
}

/// A MIDI Tuning Standard bulk tuning dump reply: a named preset holding
/// the tuning of all 128 notes.
#[derive(Debug)]
pub struct BulkDumpReply {
    device_id: DeviceId,
    preset: Preset,
    name: PresetName,
    entries: Vec<MtsEntry>,
}

impl View for BulkDumpReply {
    type V = BulkDumpView;

    closed spec fn view(&self) -> BulkDumpView {
        BulkDumpView {
            device_id: self.device_id.value(),
            preset: self.preset.value(),
            name: self.name.bytes(),
            entries: self.entries@.map_values(|e: MtsEntry| e.bytes()),
        }
    }
}

impl BulkDumpReply {
    #[verifier::type_invariant]
    spec fn inv(self) -> bool {
        self.entries@.len() == ENTRIES_LEN
    }

    pub fn new(device_id: DeviceId, preset: Preset, name: PresetName, entries: Vec<MtsEntry>) -> (r:
        Result<Self, Error>)
        requires
            entries@.len() == ENTRIES_LEN,
        ensures
            r matches Ok(x) && x@ == (BulkDumpView {
                device_id: device_id.value(),
                preset: preset.value(),
                name: name.bytes(),
                entries: entries@.map_values(|e: MtsEntry| e.bytes()),
            }),
    {
        Ok(BulkDumpReply { device_id, preset, name, entries })
    }

    pub fn device_id(&self) -> (r: DeviceId)
        ensures
            r.value() == self@.device_id,
    {
        self.device_id
    }

    pub fn preset(&self) -> (r: Preset)
        ensures
            r.value() == self@.preset,
    {
        self.preset
    }

    pub fn name(&self) -> (r: &PresetName)
        ensures
            r.bytes() == self@.name,
    {
        &self.name
    }

    pub fn entries(&self) -> (r: &[MtsEntry])
        ensures
            r@.len() == ENTRIES_LEN,
            r@.map_values(|e: MtsEntry| e.bytes()) == self@.entries,
    {
        proof {
            use_type_invariant(self);
        }
        self.entries.as_slice()
    }
}

/// Taking in the byte at `p` extends the checksum of `b[1..p]` to `b[1..p + 1]`.
proof fn lemma_checksum_step(b: Seq<u8>, p: int)
    requires
        1 <= p < b.len(),
    ensures
        checksum_of(b.subrange(1, p + 1)) == ((checksum_of(b.subrange(1, p)) ^ b[p]) % 128) as u8,
{
    assert(b.subrange(1, p + 1).drop_last() =~= b.subrange(1, p));
}

/// Reading a seven-bit value at `p` after an error-free stretch `lo..p`.
proof fn lemma_u7_step(b: Seq<u8>, lo: int, p: int)
    requires
        lo <= p,
        first_u7_error(b, lo, p) is None,
    ensures
        first_u7_error(b, lo, p + 1) == u7_error_at(b, p),
{
}

impl BulkDumpReply {
    /// Reads a bulk dump reply from the start of `bytes`; whatever follows
    /// the end of the message is ignored.
    #[verifier::rlimit(50)]
    pub fn from_bytes(bytes: &[u8]) -> (r: Result<Self, Error>)
        ensures
            match bulk_dump_error(bytes@) {
                Some(e) => r == Err::<Self, Error>(e),
                None => r matches Ok(x) && x@ == bulk_dump_fields(bytes@),
            },
    {
        let ghost b = bytes@;
        let mut calc = ChecksumCalculator::new();
        let mut pos: usize = 0;

        let b0 = match read_u8(bytes, &mut pos) {
            Ok(x) => x,
            Err(e) => return Err(e),
        };
        if b0 != SYSEX {
            return Err(Error::UnsupportedHeader);
        }
        assert(b.subrange(1, 1) =~= Seq::<u8>::empty());

        let v1 = match read::<MidiValue>(bytes, &mut pos) {
            Ok(x) => x,
            Err(e) => return Err(e),
        };
        proof { lemma_checksum_step(b, 1); }
        let _ = calc.update(v1);
        if v1.to_u8() != UNIVERSAL_NON_REAL_TIME {
            return Err(Error::UnsupportedHeader);
        }

        let device_id = match read::<DeviceId>(bytes, &mut pos) {
            Ok(x) => x,
            Err(e) => return Err(e),
        };
        proof { lemma_checksum_step(b, 2); }
        let _ = calc.update(device_id);

        let v3 = match read::<MidiValue>(bytes, &mut pos) {
            Ok(x) => x,
            Err(e) => return Err(e),
        };
        proof { lemma_checksum_step(b, 3); }
        let _ = calc.update(v3);
        if v3.to_u8() != MIDI_TUNING {
            return Err(Error::ExpectedMidiTuning);
        }

        let v4 = match read::<MidiValue>(bytes, &mut pos) {
            Ok(x) => x,
            Err(e) => return Err(e),
        };
        proof { lemma_checksum_step(b, 4); }
        let _ = calc.update(v4);
        if v4.to_u8() != BULK_DUMP_REPLY {
            return Err(Error::ExpectedBulkDumpReply);
        }

        assert(first_u7_error(b, 5, 5) is None);
        let preset = match read::<Preset>(bytes, &mut pos) {
            Ok(x) => x,
            Err(e) => {
                proof {
                    lemma_u7_step(b, 5, 5);
                    lemma_first_u7_error_extends(b, 5, 6, 406);
                }
                return Err(e);
            },
        };
        proof {
            lemma_checksum_step(b, 5);
            lemma_u7_step(b, 5, 5);
        }
        let _ = calc.update(preset);

        let name_chars = match read_multi::<Char7>(bytes, &mut pos, PRESET_NAME_LEN) {
            Ok(x) => x,
            Err(e) => {
                proof {
                    lemma_first_u7_error_split(b, 5, 6, 22);
                    lemma_first_u7_error_extends(b, 5, 22, 406);
                }
                return Err(e);
            },
        };
        proof {
            lemma_first_u7_error_split(b, 5, 6, 22);
        }
        let name = PresetName::new(name_chars);
        assert(name.bytes() =~= b.subrange(6, 22));

        let mut entries: Vec<MtsEntry> = Vec::new();
        let mut k: usize = 0;
        while k < ENTRIES_LEN
            invariant
                b == bytes@,
                k <= ENTRIES_LEN,
                pos == 22 + 3 * k,
                first_u7_error(b, 5, pos as int) is None,
                first_u7_error(b, 5, 406) is Some ==> bulk_dump_error(b) == first_u7_error(
                    b,
                    5,
                    406,
                ),
                entries@.len() == k,
                forall|j: int|
                    0 <= j < k ==> (#[trigger] entries@[j]).bytes() == (
                        b[22 + 3 * j],
                        b[23 + 3 * j],
                        b[24 + 3 * j],
                    ),
            decreases ENTRIES_LEN - k,
        {
            let ghost p = pos as int;
            let note_number = match read::<NoteNumber>(bytes, &mut pos) {
                Ok(x) => x,
                Err(e) => {
                    proof {
                        lemma_u7_step(b, 5, p);
                        lemma_first_u7_error_extends(b, 5, p + 1, 406);
                    }
                    return Err(e);
                },
            };
            proof { lemma_u7_step(b, 5, p); }
            let msb = match read::<Msb>(bytes, &mut pos) {
                Ok(x) => x,
                Err(e) => {
                    proof {
                        lemma_u7_step(b, 5, p + 1);
                        lemma_first_u7_error_extends(b, 5, p + 2, 406);
                    }
                    return Err(e);
                },
            };
            proof { lemma_u7_step(b, 5, p + 1); }
            let lsb = match read::<Lsb>(bytes, &mut pos) {
                Ok(x) => x,
                Err(e) => {
                    proof {
                        lemma_u7_step(b, 5, p + 2);
                        lemma_first_u7_error_extends(b, 5, p + 3, 406);
                    }
                    return Err(e);
                },
            };
            proof { lemma_u7_step(b, 5, p + 2); }
            entries.push(MtsEntry { note_number, msb, lsb });
            k = k + 1;
        }
        proof {
            lemma_first_u7_error_none(b, 5, 406);
        }

        let _ = calc.update_from_slice(name.as_array());
        proof {
            lemma_checksum_of_after(b.subrange(1, 6));
            lemma_checksum_after_concat(0x7f, b.subrange(1, 6), b.subrange(6, 22));
            assert(b.subrange(1, 6) + b.subrange(6, 22) =~= b.subrange(1, 22));
            lemma_checksum_of_after(b.subrange(1, 22));
        }

        let mut i: usize = 0;
        while i < ENTRIES_LEN
            invariant
                b == bytes@,
                b.len() >= 406,
                i <= ENTRIES_LEN,
                entries@.len() == ENTRIES_LEN,
                forall|j: int|
                    0 <= j < ENTRIES_LEN ==> (#[trigger] entries@[j]).bytes() == (
                        b[22 + 3 * j],
                        b[23 + 3 * j],
                        b[24 + 3 * j],
                    ),
                calc.count() == 21 + 3 * i,
                calc.current() == checksum_of(b.subrange(1, 22 + 3 * i)),
            decreases ENTRIES_LEN - i,
        {
            let e = entries[i];
            let ghost p = 22 + 3 * i;
            assert(e.bytes() == (b[p], b[p + 1], b[p + 2]));
            proof { lemma_checksum_step(b, p); }
            let _ = calc.update(e.note_number);
            proof { lemma_checksum_step(b, p + 1); }
            let _ = calc.update(e.msb);
            proof { lemma_checksum_step(b, p + 2); }
            let _ = calc.update(e.lsb);
            i = i + 1;
        }

        let checksum = match read::<Checksum>(bytes, &mut pos) {
            Ok(x) => x,
            Err(e) => return Err(e),
        };

        let eox = match read_u8(bytes, &mut pos) {
            Ok(x) => x,
            Err(e) => return Err(e),
        };
        if eox != EOX {
            return Err(Error::EoxNotFound);
        }

        match calc.verify(checksum, Some(BULK_DUMP_REPLY_CHECKSUM_COUNT)) {
            Ok(()) => {},
            Err(e) => return Err(e),
        }

        let r = BulkDumpReply { device_id, preset, name, entries };
        assert(r@.entries =~= bulk_dump_fields(b).entries);
        assert(r@.name =~= bulk_dump_fields(b).name);
        Ok(r)
    }
}

/// The checksum of `s` followed by `x`.
proof fn lemma_checksum_push(s: Seq<u8>, x: u8)
    ensures
        checksum_of(s.push(x)) == ((checksum_of(s) ^ x) % 128) as u8,
{
    assert(s.push(x).drop_last() =~= s);
}

/// The bytes of entry `k` stand at `3 * k`, `3 * k + 1` and `3 * k + 2`.
pub proof fn lemma_entries_bytes(entries: Seq<(u8, u8, u8)>)
    ensures
        entries_bytes(entries).len() == 3 * entries.len(),
        forall|k: int|
            0 <= k < entries.len() ==> {
                &&& #[trigger] entries_bytes(entries)[3 * k] == entries[k].0
                &&& entries_bytes(entries)[3 * k + 1] == entries[k].1
                &&& entries_bytes(entries)[3 * k + 2] == entries[k].2
            },
    decreases entries.len(),
{
    if entries.len() > 0 {
        lemma_entries_bytes(entries.drop_last());
        let n = entries.len() - 1;
        assert forall|k: int| 0 <= k < entries.len() implies {
            &&& #[trigger] entries_bytes(entries)[3 * k] == entries[k].0
            &&& entries_bytes(entries)[3 * k + 1] == entries[k].1
            &&& entries_bytes(entries)[3 * k + 2] == entries[k].2
        } by {
            if k < n {
                assert(entries_bytes(entries.drop_last())[3 * k] == entries.drop_last()[k].0);
            }
        }
    }
}

impl BulkDumpReply {
    /// The values of the message between the SysEx start and end bytes,
    /// the checksum last.
    pub fn to_vec(&self) -> (r: Result<Vec<MidiValue>, Error>)
        ensures
            self@.wf(),
            r matches Ok(v) && v@.map_values(|x: MidiValue| x.value()) == bulk_dump_body(self@).push(
                checksum_of(bulk_dump_body(self@)),
            ),
    {
        proof {
            use_type_invariant(self);
        }
        let mut calc = ChecksumCalculator::new();
        let mut values = MidiMessageBuilder::with_required_len(BULK_DUMP_REPLY_MESSAGE_SIZE);
        let v1 = MidiValue::constant::<UNIVERSAL_NON_REAL_TIME>();
        proof { lemma_checksum_push(values.values(), v1.value()); }
        let _ = values.push(calc.update(v1));
        proof { lemma_checksum_push(values.values(), self.device_id.value()); }
        let _ = values.push(calc.update(self.device_id));
        let v3 = MidiValue::constant::<MIDI_TUNING>();
        proof { lemma_checksum_push(values.values(), v3.value()); }
        let _ = values.push(calc.update(v3));
        let v4 = MidiValue::constant::<BULK_DUMP_REPLY>();
        proof { lemma_checksum_push(values.values(), v4.value()); }
        let _ = values.push(calc.update(v4));
        proof { lemma_checksum_push(values.values(), self.preset.value()); }
        let _ = values.push(calc.update(self.preset));
        let _ = self.device_id.to_u8();
        let _ = self.preset.to_u8();

        let ghost header = values.values();
        assert(header =~= seq![
            UNIVERSAL_NON_REAL_TIME,
            self@.device_id,
            MIDI_TUNING,
            BULK_DUMP_REPLY,
            self@.preset,
        ]);
        let name = self.name.as_array();
        proof {
            lemma_checksum_of_after(header);
            lemma_checksum_after_concat(0x7f, header, self@.name);
            lemma_checksum_of_after(header + self@.name);
        }
        values.extend_from_slice(calc.update_from_slice(name));
        assert forall|i: int| 0 <= i < name@.len() implies #[trigger] self@.name[i] < 128 by {
            name@[i].value_in_range();
            assert(self@.name[i] == name@[i].value());
        }

        let mut i: usize = 0;
        while i < ENTRIES_LEN
            invariant
                self.entries@.len() == ENTRIES_LEN,
                i <= ENTRIES_LEN,
                values.required_len() == BULK_DUMP_REPLY_MESSAGE_SIZE,
                values.values() == header + self@.name + entries_bytes(self@.entries.take(i as int)),
                calc.count() == values.values().len(),
                calc.count() == 21 + 3 * i,
                calc.current() == checksum_of(values.values()),
                forall|j: int| 0 <= j < i ==> (#[trigger] self@.entries[j]).0 < 128
                    && self@.entries[j].1 < 128 && self@.entries[j].2 < 128,
            decreases ENTRIES_LEN - i,
        {
            let e = &self.entries[i];
            let ghost before = values.values();
            proof { lemma_checksum_push(values.values(), e.note_number.value()); }
            let a = e.note_number.to_u8();
            let _ = values.push(calc.update(e.note_number));
            proof { lemma_checksum_push(values.values(), e.msb.value()); }
            let m = e.msb.to_u8();
            let _ = values.push(calc.update(e.msb));
            proof { lemma_checksum_push(values.values(), e.lsb.value()); }
            let l = e.lsb.to_u8();
            let _ = values.push(calc.update(e.lsb));
            assert(self@.entries.take(i + 1).drop_last() =~= self@.entries.take(i as int));
            assert(self@.entries[i as int] == e.bytes());
            i = i + 1;
            assert(values.values() =~= header + self@.name + entries_bytes(
                self@.entries.take(i as int),
            ));
        }
        assert(self@.entries.take(ENTRIES_LEN as int) =~= self@.entries);
        assert(values.values() =~= bulk_dump_body(self@));

        let checksum = match calc.finalize(Some(BULK_DUMP_REPLY_CHECKSUM_COUNT)) {
            Ok(c) => c,
            Err(e) => return Err(e),
        };
        let _ = values.push(checksum);
        values.finalize()
    }

    /// The complete message, from SysEx start to end.
    pub fn to_bytes_with_start_and_end(&self) -> (r: Result<Vec<u8>, Error>)
        ensures
            self@.wf(),
            r matches Ok(b) && b@ == bulk_dump_bytes(self@),
    {
        let vec = match self.to_vec() {
            Ok(v) => v,
            Err(e) => return Err(e),
        };
        let inner_bytes = MidiValue::to_u8_vec(vec.as_slice());
        let mut bytes: Vec<u8> = Vec::new();
        bytes.push(SYSEX);
        let mut i: usize = 0;
        while i < inner_bytes.len()
            invariant
                i <= inner_bytes.len(),
                bytes@ == seq![SYSEX] + inner_bytes@.take(i as int),
            decreases inner_bytes.len() - i,
        {
            bytes.push(inner_bytes[i]);
            i = i + 1;
            assert(inner_bytes@.take(i as int) =~= inner_bytes@.take(i - 1).push(
                inner_bytes@[i - 1],
            ));
        }
        bytes.push(EOX);
        assert(inner_bytes@.take(inner_bytes.len() as int) =~= inner_bytes@);
        assert(bytes@ =~= bulk_dump_bytes(self@));
        Ok(bytes)
    }
}

/// A well-formed reply, written out and read back, is the same reply.
pub proof fn law_bulk_dump_roundtrip(v: BulkDumpView)
    requires
        v.wf(),
    ensures
        bulk_dump_error(bulk_dump_bytes(v)) is None,
        bulk_dump_fields(bulk_dump_bytes(v)) == v,
{
    let body = bulk_dump_body(v);
    let b = bulk_dump_bytes(v);
    lemma_entries_bytes(v.entries);
    assert(body.len() == 405);
    assert(b.len() == 408);
    assert(b.subrange(1, 406) =~= body);
    assert forall|i: int| 5 <= i < 406 implies b[i] < 128 by {
        if 22 <= i {
            let k = (i - 22) / 3;
            assert(i == 22 + 3 * k || i == 22 + 3 * k + 1 || i == 22 + 3 * k + 2);
            assert(entries_bytes(v.entries)[3 * k] == v.entries[k].0);
        }
    }
    lemma_first_u7_error_none_from(b, 5, 406);
    let f = bulk_dump_fields(b);
    assert(f.name =~= v.name);
    assert forall|k: int| 0 <= k < ENTRIES_LEN implies #[trigger] f.entries[k] == v.entries[k] by {
        assert(entries_bytes(v.entries)[3 * k] == v.entries[k].0);
        assert(b[22 + 3 * k] == entries_bytes(v.entries)[3 * k]);
        assert(b[23 + 3 * k] == entries_bytes(v.entries)[3 * k + 1]);
        assert(b[24 + 3 * k] == entries_bytes(v.entries)[3 * k + 2]);
    }
    assert(f.entries =~= v.entries);
}

/// Bytes that read as a reply are, up to the end of the message, exactly
/// what writing that reply out gives.
pub proof fn law_bulk_dump_reparse(b: Seq<u8>)
    requires
        bulk_dump_error(b) is None,
    ensures
        bulk_dump_fields(b).wf(),
        bulk_dump_bytes(bulk_dump_fields(b)) == b.take(408),
{
    let v = bulk_dump_fields(b);
    lemma_first_u7_error_none(b, 5, 406);
    lemma_entries_bytes(v.entries);
    assert(b.subrange(1, 406) =~= bulk_dump_body(v)) by {
        assert forall|i: int| 22 <= i < 406 implies #[trigger] b[i] == bulk_dump_body(v)[i - 1] by {
            let k = (i - 22) / 3;
            assert(i == 22 + 3 * k || i == 22 + 3 * k + 1 || i == 22 + 3 * k + 2);
            assert(entries_bytes(v.entries)[3 * k] == v.entries[k].0);
        }
    }
    assert(bulk_dump_bytes(v) =~= b.take(408));
}

} // verus!
