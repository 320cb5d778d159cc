use vstd::prelude::*;
use crate::cli::{key_value, parse_key};
use crate::error::Error;
use crate::text::law_lines_final_line_feed_optional;
use crate::text::{
    chars_of, find_char, is_float_chars, is_float_text, lines, position_of, slice_chars,
    split_lines, trim, trim_chars, trim_start, trim_start_chars, views,
};
use crate::u7::{KeyNumber, U7};

verus! {

/// The lines after the first line that is a lone `|` (none if there is no
/// such line).
pub open spec fn after_header(ls: Seq<Seq<char>>) -> Seq<Seq<char>>
    decreases ls.len(),
{
    if ls.len() == 0 {
        Seq::empty()
    } else if ls[0] == seq!['|'] {
        ls.drop_first()
    } else {
        after_header(ls.drop_first())
    }
}

/// The trimmed lines of a tuning dump that hold key entries.
pub open spec fn dump_lines(s: Seq<char>, includes_header: bool) -> Seq<Seq<char>> {
    let ls = lines(s).map_values(|l: Seq<char>| trim(l));
    if includes_header {
        after_header(ls)
    } else {
        ls
    }
}

/// What the part of a line `key: frequency ...` up to the colon gives:
/// the key, and the text after the colon.
pub open spec fn dump_key(line: Seq<char>) -> Result<(u8, Seq<char>), Error> {
    match find_char(line, ':') {
        None => Err(Error::DumpKeyNotFound),
        Some(p) => match key_value(line.take(p as int)) {
            None => Err(Error::DumpInvalidKey),
            Some(k) => Ok((k, line.skip(p as int + 1))),
        },
    }
}

/// What the text after the colon gives: the frequency, up to the first
/// space after the leading whitespace, which must be a number.
pub open spec fn dump_frequency(suffix: Seq<char>) -> Result<Seq<char>, Error> {
    let rest = trim_start(suffix);
    match find_char(rest, ' ') {
        None => Err(Error::DumpFrequencyNotFound),
        Some(q) => if is_float_text(rest.take(q as int)) {
            Ok(rest.take(q as int))
        } else {
            Err(Error::InvalidFrequency)
        },
    }
}

/// Reading one entry line when the keys so far reach `next`: the key must
/// not be below `next`.
pub open spec fn dump_entry(line: Seq<char>, next: u8) -> Result<(u8, Seq<char>), Error> {
    match dump_key(line) {
        Err(e) => Err(e),
        Ok((k, suffix)) => if k < next {
            Err(Error::DumpUnexpectedKey(k))
        } else {
            match dump_frequency(suffix) {
                Err(e) => Err(e),
                Ok(f) => Ok((k, f)),
            }
        },
    }
}

/// What the entry lines `ls` give, when the keys so far reach `next`: each
/// key at least the one before it.
pub open spec fn dump_result(ls: Seq<Seq<char>>, next: u8) -> Result<Seq<(u8, Seq<char>)>, Error>
    decreases ls.len(),
{
    if ls.len() == 0 {
        Ok(Seq::empty())
    } else {
        match dump_entry(ls[0], next) {
            Err(e) => Err(e),
            Ok((k, f)) => match dump_result(ls.drop_first(), k) {
                Err(e) => Err(e),
                Ok(rest) => Ok(seq![(k, f)] + rest),
            },
        }
    }
}

/// `done` followed by what `r` holds, or the error of `r`.
pub open spec fn after(done: Seq<(u8, Seq<char>)>, r: Result<Seq<(u8, Seq<char>)>, Error>) -> Result<
    Seq<(u8, Seq<char>)>,
    Error,
> {
    match r {
        Ok(rest) => Ok(done + rest),
        Err(e) => Err(e),
    }
}

pub open spec fn entry_views(v: Seq<(KeyNumber, Vec<char>)>) -> Seq<(u8, Seq<char>)> {
    v.map_values(|e: (KeyNumber, Vec<char>)| (e.0.value(), e.1@))
}

fn parse_dump_entry(line: &Vec<char>, next: u8) -> (r: Result<(KeyNumber, Vec<char>), Error>)
    ensures
        match dump_entry(line@, next) {
            Ok((k, f)) => r matches Ok(e) && e.0.value() == k && e.1@ == f,
            Err(e) => r == Err::<(KeyNumber, Vec<char>), Error>(e),
        },
{
    let pos = position_of(line.as_slice(), ':');
    let p = match pos {
        Some(p) => p,
        None => return Err(Error::DumpKeyNotFound),
    };

    let prefix = slice_chars(line.as_slice(), 0, p);
    assert(prefix@ =~= line@.take(p as int));
    let key = match parse_key(&prefix) {
        Some(k) => k,
        None => return Err(Error::DumpInvalidKey),
    };
    if key.to_u8() < next {
        return Err(Error::DumpUnexpectedKey(key.to_u8()));
    }
    let n = line.len();
    assert(p < n);
    let suffix = slice_chars(line.as_slice(), p + 1, n);
    assert(suffix@ =~= line@.skip(p + 1));
    let rest = trim_start_chars(suffix.as_slice());
    let qos = position_of(rest.as_slice(), ' ');
    let q = match qos {
        Some(q) => q,
        None => return Err(Error::DumpFrequencyNotFound),
    };

    let frequency = slice_chars(rest.as_slice(), 0, q);
    assert(frequency@ =~= rest@.take(q as int));
    if !is_float_chars(frequency.as_slice()) {
        return Err(Error::InvalidFrequency);
    }
    Ok((key, frequency))
}

/// One step of reading the entry lines from `i` on.
proof fn lemma_dump_unfold(ls: Seq<Seq<char>>, i: int, next: u8)
    requires
        0 <= i < ls.len(),
    ensures
        dump_result(ls.skip(i), next) == match dump_entry(ls[i], next) {
            Err(e) => Err(e),
            Ok((k, f)) => after(seq![(k, f)], dump_result(ls.skip(i + 1), k)),
        },
{
    assert(ls.skip(i).drop_first() =~= ls.skip(i + 1));
    assert(ls.skip(i)[0] == ls[i]);
}

proof fn lemma_after_after(
    a: Seq<(u8, Seq<char>)>,
    b: Seq<(u8, Seq<char>)>,
    r: Result<Seq<(u8, Seq<char>)>, Error>,
)
    ensures
        after(a, after(b, r)) == after(a + b, r),
{
    if let Ok(rest) = r {
        assert(a + (b + rest) =~= (a + b) + rest);
    }
}

/// Reads the key and frequency entries of a Scala tuning dump, each line
/// `key: frequency ...`, skipping the header up to the line `|` when there
/// is one. The frequencies, checked to be numbers, are handed back as text.
pub fn parse_scala_tuning_dump(s: &str, includes_header: bool) -> (r: Result<
    Vec<(KeyNumber, Vec<char>)>,
    Error,
>)
    ensures
        match dump_result(dump_lines(s@, includes_header), 0) {
            Ok(x) => r matches Ok(v) && entry_views(v@) == x,
            Err(e) => r == Err::<Vec<(KeyNumber, Vec<char>)>, Error>(e),
        },
{
    let chars = chars_of(s);
    let raw = split_lines(chars.as_slice());
    let ghost ls = lines(s@).map_values(|l: Seq<char>| trim(l));
    assert(ls.len() == raw@.len());
    let mut i: usize = 0;
    if includes_header {
        assert(ls.skip(0) =~= ls);
        let mut found = false;
        while i < raw.len() && !found
            invariant
                i <= raw@.len(),
                views(raw@) == lines(s@),
                ls == lines(s@).map_values(|l: Seq<char>| trim(l)),
                ls.len() == raw@.len(),
                found ==> after_header(ls) == ls.skip(i as int),
                !found ==> after_header(ls.skip(i as int)) == after_header(ls),
            decreases raw.len() - i,
        {
            let line = trim_chars(raw[i].as_slice());
            assert(views(raw@)[i as int] == raw@[i as int]@);
            assert(ls.skip(i as int).drop_first() =~= ls.skip(i + 1));
            assert(ls.skip(i as int)[0] == line@);
            if line.len() == 1 && line[0] == '|' {
                assert(line@ =~= seq!['|']);
                found = true;
            } else {
                assert(line@ != seq!['|']);
            }
            i = i + 1;
        }
        proof {
            if !found {
                assert(ls.skip(i as int) =~= Seq::<Seq<char>>::empty());
            }
        }
    } else {
        assert(ls.skip(0) =~= ls);
    }
    let ghost start = i as int;
    assert(dump_lines(s@, includes_header) == ls.skip(start));
    let mut result: Vec<(KeyNumber, Vec<char>)> = Vec::new();
    let mut next: u8 = 0;
    while i < raw.len()
        invariant
            start <= i <= raw@.len(),
            views(raw@) == lines(s@),
            ls == lines(s@).map_values(|l: Seq<char>| trim(l)),
            ls.len() == raw@.len(),
            dump_lines(s@, includes_header) == ls.skip(start),
            next < 128,
            dump_result(ls.skip(start), 0) == after(
                entry_views(result@),
                dump_result(ls.skip(i as int), next),
            ),
        decreases raw.len() - i,
    {
        let line = trim_chars(raw[i].as_slice());
        assert(views(raw@)[i as int] == raw@[i as int]@);
        assert(line@ == ls[i as int]);
        proof {
            lemma_dump_unfold(ls, i as int, next);
        }
        let (key, frequency) = match parse_dump_entry(&line, next) {
            Ok(e) => e,
            Err(e) => {
                assert(dump_result(ls.skip(i as int), next) == Err::<Seq<(u8, Seq<char>)>, Error>(e));
                assert(dump_result(ls.skip(start), 0) == Err::<Seq<(u8, Seq<char>)>, Error>(e));
                return Err(e);
            },
        };
        let ghost before = entry_views(result@);
        let ghost entry = (key.value(), frequency@);
        result.push((key, frequency));
        proof {
            assert(entry_views(result@) =~= before + seq![entry]);
            lemma_after_after(before, seq![entry], dump_result(ls.skip(i + 1), key.value()));
        }
        next = key.to_u8();
        i = i + 1;
    }
    assert(ls.skip(i as int) =~= Seq::<Seq<char>>::empty());
    assert(entry_views(result@) + Seq::<(u8, Seq<char>)>::empty() =~= entry_views(result@));
    Ok(result)
}

/// A tuning dump whose last line has no line feed reads the same as with
/// one appended: the final line still counts.
pub proof fn law_dump_final_line_feed_optional(s: Seq<char>, includes_header: bool)
    requires
        s.len() > 0,
        s.last() != '\n',
        s.last() != '\r',
    ensures
        dump_lines(s.push('\n'), includes_header) == dump_lines(s, includes_header),
        dump_result(dump_lines(s.push('\n'), includes_header), 0) == dump_result(
            dump_lines(s, includes_header),
            0,
        ),
{
    law_lines_final_line_feed_optional(s);
}

} // verus!
