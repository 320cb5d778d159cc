use vstd::prelude::*;
use vstd::arithmetic::div_mod::lemma_fundamental_div_mod;
use crate::error::Error;
use crate::note_change::{note_change_body, NoteChange, NoteChangeEntry};
use crate::sysex::{sysex_frame, write_sysex};
use crate::mts_entry::MtsEntry;
use crate::u7::{ChunkSize, DeviceId, KeyNumber, MidiValue, Preset, U7};

verus! {

/// How many chunks of `size` items `n` items make, the last possibly short.
pub open spec fn chunk_count(n: nat, size: nat) -> nat {
    if size == 0 {
        0
    } else {
        ((n + size - 1) / size as int) as nat
    }
}

/// The `i`-th chunk of `size` items of `s`.
pub open spec fn chunk_of<T>(s: Seq<T>, size: nat, i: int) -> Seq<T> {
    let start = i * size;
    let end = if start + size <= s.len() { start + size } else { s.len() as int };
    s.subrange(start, end)
}

/// The note change messages for `entries`, `chunk_size` entries to a message,
/// each framed as a System Exclusive message.
pub fn make_messages(
    device_id: DeviceId,
    preset: Preset,
    entries: &[NoteChangeEntry],
    chunk_size: ChunkSize,
) -> (r: Result<Vec<Vec<u8>>, Error>)
    requires
        chunk_size.value() > 0,
    ensures
        r matches Ok(m) && m@.len() == chunk_count(entries@.len(), chunk_size.value() as nat)
            && forall|i: int|
            0 <= i < m@.len() ==> (#[trigger] m@[i])@ == sysex_frame(
                note_change_body(
                    device_id.value(),
                    preset.value(),
                    chunk_of(entries@, chunk_size.value() as nat, i),
                ),
            ),
{
    let size = chunk_size.to_u8() as usize;
    let n = entries.len();
    let mut messages: Vec<Vec<u8>> = Vec::new();
    let mut start: usize = 0;
    proof {
        if n > 0 {
            assert(0 * size == 0);
            lemma_chunk_progress(n as nat, size as nat, 0);
        } else {
            assert((size - 1) as int / size as int == 0) by (nonlinear_arith)
                requires
                    size > 0,
            ;
        }
    }
    while start < n
        invariant
            0 < size < 128,
            n == entries@.len(),
            start <= n,
            start < n ==> start == messages@.len() * size,
            start < n ==> messages@.len() < chunk_count(n as nat, size as nat),
            start == n ==> messages@.len() == chunk_count(n as nat, size as nat),
            forall|i: int|
                0 <= i < messages@.len() ==> (#[trigger] messages@[i])@ == sysex_frame(
                    note_change_body(
                        device_id.value(),
                        preset.value(),
                        chunk_of(entries@, size as nat, i),
                    ),
                ),
        decreases n - start,
    {
        let end = if n - start >= size { start + size } else { n };
        let chunk = &entries[start..end];
        let ghost k = messages@.len() as int;
        assert(chunk@ == chunk_of(entries@, size as nat, k));
        let note_change = match NoteChange::new(device_id, preset, chunk) {
            Ok(x) => x,
            Err(e) => return Err(e),
        };
        let vec = match note_change.to_vec() {
            Ok(v) => v,
            Err(e) => return Err(e),
        };
        let bytes = MidiValue::to_u8_vec(vec.as_slice());
        assert forall|i: int| 0 <= i < bytes@.len() implies bytes@[i] < 128 by {
            vec@[i].value_in_range();
        }
        let message = write_sysex(bytes.as_slice());
        messages.push(message);
        proof {
            lemma_chunk_progress(n as nat, size as nat, k as nat);
        }
        start = end;
    }
    Ok(messages)
}

proof fn lemma_chunk_progress(n: nat, size: nat, k: nat)
    requires
        0 < size,
        k * size < n,
    ensures
        (k + 1) * size == k * size + size,
        k < chunk_count(n, size),
        (k + 1) * size >= n ==> k + 1 == chunk_count(n, size),
        (k + 1) * size < n ==> k + 1 < chunk_count(n, size),
{
    assert((k + 1) * size == k * size + size) by (nonlinear_arith);
    let c = chunk_count(n, size);
    assert(c == (n + size - 1) / size as int);
    assert(k < c) by (nonlinear_arith)
        requires
            k * size < n,
            0 < size,
            c == (n + size - 1) / size as int,
    ;
    if (k + 1) * size >= n {
        assert(k + 1 == c) by (nonlinear_arith)
            requires
                k * size < n,
                (k + 1) * size >= n,
                0 < size,
                c == (n + size - 1) / size as int,
        ;
    } else {
        assert(k + 1 < c) by (nonlinear_arith)
            requires
                (k + 1) * size < n,
                0 < size,
                c == (n + size - 1) / size as int,
        ;
    }
}

/// The Novation "save tunings" System Exclusive message: the manufacturer
/// ID 00 20 29 and the command 00 33 00 48.
pub fn save_tunings_message() -> (r: Vec<u8>)
    ensures
        r@ == sysex_frame(seq![0x00u8, 0x20, 0x29, 0x00, 0x33, 0x00, 0x48]),
{
    let values: Vec<u8> = vec![0x00u8, 0x20, 0x29, 0x00, 0x33, 0x00, 0x48];
    assert(values@ =~= seq![0x00u8, 0x20, 0x29, 0x00, 0x33, 0x00, 0x48]);
    write_sysex(values.as_slice())
}

/// Note change entries for the tunings `mts` of consecutive keys, the
/// first for key 0. Fails with the first key number out of range when there
/// are more than 128 tunings.
pub fn make_note_change_entries(mts: &[MtsEntry]) -> (r: Result<Vec<NoteChangeEntry>, Error>)
    ensures
        mts@.len() > 128 ==> r == Err::<Vec<NoteChangeEntry>, Error>(Error::OutOfRange(128)),
        mts@.len() <= 128 ==> (r matches Ok(v) && v@.len() == mts@.len() && forall|i: int|
            0 <= i < v@.len() ==> (#[trigger] v@[i]).key_number.value() == i && v@[i].mts
                == mts@[i]),
{
    let mut entries: Vec<NoteChangeEntry> = Vec::new();
    let mut i: usize = 0;
    while i < mts.len()
        invariant
            i <= mts@.len(),
            i <= 128,
            entries@.len() == i,
            forall|j: int|
                0 <= j < i ==> (#[trigger] entries@[j]).key_number.value() == j && entries@[j].mts
                    == mts@[j],
        decreases mts.len() - i,
    {
        if i >= 128 {
            return Err(Error::OutOfRange(128));
        }
        let key_number = KeyNumber::from_u8_lossy(i as u8);
        entries.push(NoteChangeEntry { key_number, mts: mts[i] });
        i = i + 1;
    }
    Ok(entries)
}

/// The first `k` chunks of `size` items of `s`, joined.
pub open spec fn joined_chunks<T>(s: Seq<T>, size: nat, k: nat) -> Seq<T>
    decreases k,
{
    if k == 0 {
        Seq::empty()
    } else {
        joined_chunks(s, size, (k - 1) as nat) + chunk_of(s, size, k - 1)
    }
}

/// A chunk index is below the chunk count exactly when the chunk starts
/// inside the items.
proof fn lemma_chunk_count_bound(n: nat, size: nat, k: nat)
    requires
        size > 0,
    ensures
        (k < chunk_count(n, size)) <==> (k * size < n),
{
    let d = size as int;
    let c = chunk_count(n, size) as int;
    let m = (n + size - 1) as int;
    assert(c == m / d);
    lemma_fundamental_div_mod(m, d);
    let r = m % d;
    assert(m == d * c + r);
    assert(0 <= r < d);
    if k < c {
        assert(k * d <= (c - 1) * d) by (nonlinear_arith)
            requires
                k < c,
                d > 0,
        ;
        assert((c - 1) * d == d * c - d) by (nonlinear_arith);
    } else {
        assert(k * d >= c * d) by (nonlinear_arith)
            requires
                k >= c,
                d > 0,
        ;
        assert(c * d == d * c) by (nonlinear_arith);
    }
}

proof fn lemma_joined_prefix<T>(s: Seq<T>, size: nat, k: nat)
    requires
        size > 0,
        k <= chunk_count(s.len(), size),
    ensures
        k * size <= s.len() ==> joined_chunks(s, size, k) == s.subrange(0, (k * size) as int),
        k * size > s.len() ==> joined_chunks(s, size, k) == s,
    decreases k,
{
    if k > 0 {
        let j = (k - 1) as nat;
        lemma_chunk_count_bound(s.len(), size, j);
        lemma_joined_prefix(s, size, j);
        assert(j * size + size == (k * size) as int) by (nonlinear_arith)
            requires
                j == k - 1,
        ;
        assert(joined_chunks(s, size, j) == s.subrange(0, (j * size) as int));
        if k * size <= s.len() {
            assert(s.subrange(0, (j * size) as int) + s.subrange((j * size) as int, (k * size) as int)
                =~= s.subrange(0, (k * size) as int));
        } else {
            assert(s.subrange(0, (j * size) as int) + s.subrange((j * size) as int, s.len() as int) =~= s);
        }
    }
}

/// The chunks that the note change messages carry, joined in order, are
/// the entries themselves: every entry is sent once, in its place.
pub proof fn law_chunks_join_to_entries<T>(s: Seq<T>, size: nat)
    requires
        size > 0,
    ensures
        joined_chunks(s, size, chunk_count(s.len(), size)) == s,
{
    let c = chunk_count(s.len(), size);
    lemma_joined_prefix(s, size, c);
    lemma_chunk_count_bound(s.len(), size, c);
    if c * size <= s.len() {
        assert(c * size == s.len());
        assert(s.subrange(0, s.len() as int) =~= s);
    }
}

} // verus!
