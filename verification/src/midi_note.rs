use vstd::prelude::*;
use crate::text::string_of;
use crate::u7::{NoteNumber, U7};

verus! {

/// The letters of the twelve notes of an octave starting at C; a blank
/// stands for the sharp of the letter before it.
pub open spec fn note_letters() -> Seq<char> {
    seq!['C', ' ', 'D', ' ', 'E', 'F', ' ', 'G', ' ', 'A', ' ', 'B']
}

/// The octave of MIDI note `n` as written in its name: -1 up to 9.
pub open spec fn octave_text(n: int) -> Seq<char> {
    let octave = n / 12 - 1;
    if octave < 0 {
        seq!['-', '1']
    } else {
        seq![('0' as int + octave) as char]
    }
}

/// The name of MIDI note `n` (`n` below 128), such as `A4` for 69 or
/// `C#-1` for 1.
pub open spec fn note_name(n: int) -> Seq<char> {
    let c = note_letters()[n % 12];
    if c == ' ' {
        seq![note_letters()[n % 12 - 1], '#'] + octave_text(n)
    } else {
        seq![c] + octave_text(n)
    }
}

/// A MIDI note and its name.
#[derive(Clone, Debug)]
pub struct MidiNote {
    note_number: NoteNumber,
    name: String,
}

impl MidiNote {
    pub closed spec fn spec_note_number(&self) -> u8 {
        self.note_number.value()
    }

    pub closed spec fn spec_name(&self) -> Seq<char> {
        self.name@
    }

    /// The note with the given number, named.
    pub fn new(note_number: NoteNumber) -> (r: Self)
        ensures
            r.spec_note_number() == note_number.value(),
            r.spec_name() == note_name(note_number.value() as int),
    {
        let n = note_number.to_u8();
        let letters: [char; 12] = ['C', ' ', 'D', ' ', 'E', 'F', ' ', 'G', ' ', 'A', ' ', 'B'];
        assert(letters@ == note_letters());
        let index = (n % 12) as usize;
        let c = letters[index];
        let mut name: Vec<char> = Vec::new();
        if c == ' ' {
            name.push(letters[index - 1]);
            name.push('#');
        } else {
            name.push(c);
        }
        let octave = n / 12;
        if octave == 0 {
            name.push('-');
            name.push('1');
        } else {
            name.push(((48u8 + octave - 1) as char));
        }
        assert(name@ =~= note_name(n as int));
        MidiNote { note_number, name: string_of(name.as_slice()) }
    }

    /// All 128 MIDI notes, by number.
    pub fn all() -> (r: Vec<MidiNote>)
        ensures
            r@.len() == 128,
            forall|i: int|
                0 <= i < 128 ==> #[trigger] r@[i].spec_note_number() == i && r@[i].spec_name()
                    == note_name(i),
    {
        let mut r: Vec<MidiNote> = Vec::new();
        let mut i: u8 = 0;
        while i < 128
            invariant
                i <= 128,
                r@.len() == i,
                forall|j: int|
                    0 <= j < i ==> #[trigger] r@[j].spec_note_number() == j && r@[j].spec_name()
                        == note_name(j),
            decreases 128 - i,
        {
            r.push(MidiNote::new(NoteNumber::from_u8_lossy(i)));
            i = i + 1;
        }
        r
    }

    pub fn note_number(&self) -> (r: NoteNumber)
        ensures
            r.value() == self.spec_note_number(),
    {
        self.note_number
    }

    pub fn name(&self) -> (r: &str)
        ensures
            r@ == self.spec_name(),
    {
        self.name.as_str()
    }
}

/// The letter after `c` in the musical alphabet A to G, going round from
/// G to A.
pub open spec fn next_letter(c: char) -> char {
    if c == 'G' {
        'A'
    } else {
        ((c as u32) + 1) as char
    }
}

proof fn lemma_octave_text(n: int)
    requires
        0 <= n < 128,
    ensures
        octave_text(n).len() > 0,
        octave_text(n)[0] != '#',
        n < 12 ==> octave_text(n) == seq!['-', '1'],
        n >= 12 ==> octave_text(n).len() == 1 && octave_text(n)[0] == ('0' as int + n / 12
            - 1) as char,
{
}

/// The name of note `n`, letter by letter, by its place in the octave.
proof fn lemma_note_name_parts(n: int)
    requires
        0 <= n < 128,
    ensures
        ({
            let i = n % 12;
            let name = note_name(n);
            let sharp = i == 1 || i == 3 || i == 6 || i == 8 || i == 10;
            let letter = if i <= 1 {
                'C'
            } else if i <= 3 {
                'D'
            } else if i == 4 {
                'E'
            } else if i <= 6 {
                'F'
            } else if i <= 8 {
                'G'
            } else if i <= 10 {
                'A'
            } else {
                'B'
            };
            &&& name[0] == letter
            &&& sharp ==> name == seq![letter, '#'] + octave_text(n)
            &&& !sharp ==> name == seq![letter] + octave_text(n)
        }),
{
    let l = note_letters();
    assert(l[0] == 'C' && l[1] == ' ' && l[2] == 'D' && l[3] == ' ' && l[4] == 'E' && l[5] == 'F'
        && l[6] == ' ' && l[7] == 'G' && l[8] == ' ' && l[9] == 'A' && l[10] == ' ' && l[11]
        == 'B');
    lemma_octave_text(n);
}

/// From one note to the next, the names follow the chromatic scale: a
/// natural other than E and B is followed by its sharp, and a sharp, E or B
/// by the next natural letter.
pub proof fn law_note_names_chromatic(n: int)
    requires
        0 <= n,
        n + 1 < 128,
    ensures
        ({
            let a = note_name(n);
            let b = note_name(n + 1);
            if a[1] == '#' || a[0] == 'E' || a[0] == 'B' {
                b[1] != '#' && b[0] == next_letter(a[0])
            } else {
                b[0] == a[0] && b[1] == '#'
            }
        }),
{
    lemma_note_name_parts(n);
    lemma_note_name_parts(n + 1);
    lemma_octave_text(n);
    lemma_octave_text(n + 1);
    assert((n + 1) % 12 == if n % 12 == 11 { 0 } else { n % 12 + 1 });
}

/// Note 0 is C of octave -1.
pub proof fn law_note_zero_is_c(n: int)
    requires
        n == 0,
    ensures
        note_name(n) == seq!['C', '-', '1'],
{
    lemma_note_name_parts(n);
}

/// No two MIDI notes have the same name.
pub proof fn law_note_names_distinct(n: int, m: int)
    requires
        0 <= n < 128,
        0 <= m < 128,
        n != m,
    ensures
        note_name(n) != note_name(m),
{
    lemma_note_name_parts(n);
    lemma_note_name_parts(m);
    lemma_octave_text(n);
    lemma_octave_text(m);
    if note_name(n) == note_name(m) {
        let a = note_name(n);
        assert(a[0] == note_name(m)[0]);
        assert(a[1] == note_name(m)[1]);
        assert(n % 12 == m % 12);
        let k: int = if a[1] == '#' { 2 } else { 1 };
        assert(a.skip(k) =~= octave_text(n));
        assert(note_name(m).skip(k) =~= octave_text(m));
        assert(octave_text(n) == octave_text(m));
        assert(n / 12 == m / 12);
    }
}

} // verus!
