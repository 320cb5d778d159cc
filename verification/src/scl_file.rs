use vstd::prelude::*;
use crate::error::Error;
use crate::interval::{interval_result, Interval};
use crate::scale::Scale;
use crate::text::law_lines_final_line_feed_optional;
use crate::text::{
    chars_of, copy_chars, lines, parse_usize, spec_parse_unsigned, split_lines, trim, trim_chars,
    views,
};

verus! {

pub open spec fn starts_with_bang(l: Seq<char>) -> bool {
    l.len() > 0 && l[0] == '!'
}

pub open spec fn ends_with_scl(l: Seq<char>) -> bool {
    l.len() >= 4 && l.subrange(l.len() - 4, l.len() as int) == seq!['.', 's', 'c', 'l']
}

/// The lines of `s`, each trimmed.
pub open spec fn trimmed_lines(s: Seq<char>) -> Seq<Seq<char>> {
    lines(s).map_values(|l: Seq<char>| trim(l))
}

/// The lines that are not comments (comments start with `!`).
pub open spec fn non_comment(ls: Seq<Seq<char>>) -> Seq<Seq<char>>
    decreases ls.len(),
{
    if ls.len() == 0 {
        Seq::empty()
    } else if starts_with_bang(ls.last()) {
        non_comment(ls.drop_last())
    } else {
        non_comment(ls.drop_last()).push(ls.last())
    }
}

/// The lines that are not empty.
pub open spec fn non_blank(ls: Seq<Seq<char>>) -> Seq<Seq<char>>
    decreases ls.len(),
{
    if ls.len() == 0 {
        Seq::empty()
    } else if ls.last().len() == 0 {
        non_blank(ls.drop_last())
    } else {
        non_blank(ls.drop_last()).push(ls.last())
    }
}

/// The first line names the file: a comment ending in `.scl`.
pub open spec fn scl_has_file_name(ts: Seq<Seq<char>>) -> bool {
    ts.len() > 0 && starts_with_bang(ts[0]) && ends_with_scl(ts[0])
}

/// The lines after the file name line, if there is one.
pub open spec fn scl_body(ts: Seq<Seq<char>>) -> Seq<Seq<char>> {
    if scl_has_file_name(ts) {
        ts.drop_first()
    } else {
        ts
    }
}

/// The non-blank lines after the description, the number of notes first.
pub open spec fn scl_after_description(ts: Seq<Seq<char>>) -> Seq<Seq<char>> {
    non_blank(non_comment(scl_body(ts)).drop_first())
}

/// Reading an interval from each of `ls` in turn, the first problem met.
pub open spec fn first_interval_error(ls: Seq<Seq<char>>) -> Option<Error>
    decreases ls.len(),
{
    if ls.len() == 0 {
        None
    } else {
        match first_interval_error(ls.drop_last()) {
            Some(e) => Some(e),
            None => match interval_result(ls.last()) {
                Err(e) => Some(e),
                Ok(_) => None,
            },
        }
    }
}

/// Reading a Scala tuning file whose trimmed lines are `ts`, the first
/// problem met.
pub open spec fn scl_error(ts: Seq<Seq<char>>) -> Option<Error> {
    let rest = scl_after_description(ts);
    if ts.len() == 0 {
        Some(Error::InvalidTuningString)
    } else if non_comment(scl_body(ts)).len() == 0 {
        Some(Error::NoDescription)
    } else if rest.len() == 0 {
        Some(Error::NoIntervalCount)
    } else if spec_parse_unsigned(rest[0], usize::MAX as nat) is Err {
        Some(Error::ParseInt(spec_parse_unsigned(rest[0], usize::MAX as nat)->Err_0))
    } else if first_interval_error(rest.drop_first()) is Some {
        first_interval_error(rest.drop_first())
    } else if rest.len() - 1 != spec_parse_unsigned(rest[0], usize::MAX as nat)->Ok_0 {
        Some(Error::IncorrectNumberOfNotes)
    } else if rest.len() == 1 {
        Some(Error::EmptyScale)
    } else {
        None
    }
}

/// A Scala tuning (`.scl`) file.
#[derive(Debug)]
pub struct SclFile {
    file_name: Option<Vec<char>>,
    description: Vec<char>,
    scale: Scale,
}

impl SclFile {
    pub closed spec fn spec_file_name(&self) -> Option<Seq<char>> {
        match self.file_name {
            Some(n) => Some(n@),
            None => None,
        }
    }

    pub closed spec fn spec_description(&self) -> Seq<char> {
        self.description@
    }

    pub closed spec fn spec_scale(&self) -> Scale {
        self.scale
    }

    /// `self` is what a file with trimmed lines `ts` says.
    pub open spec fn holds_lines(&self, ts: Seq<Seq<char>>) -> bool {
        let rest = scl_after_description(ts);
        &&& self.spec_file_name() == (if scl_has_file_name(ts) {
            Some(trim(ts[0].drop_first()))
        } else {
            None
        })
        &&& self.spec_description() == non_comment(scl_body(ts))[0]
        &&& self.spec_scale().spec_intervals().len() == rest.len() - 1
        &&& forall|i: int|
            0 <= i < rest.len() - 1 ==> Ok::<Interval, Error>(
                #[trigger] self.spec_scale().spec_intervals()[i],
            ) == interval_result(rest[i + 1])
    }

    pub fn file_name(&self) -> (r: &Option<Vec<char>>)
        ensures
            match *r {
                Some(n) => self.spec_file_name() == Some(n@),
                None => self.spec_file_name() is None,
            },
    {
        &self.file_name
    }

    pub fn description(&self) -> (r: &Vec<char>)
        ensures
            r@ == self.spec_description(),
    {
        &self.description
    }

    pub fn scale(&self) -> (r: &Scale)
        ensures
            *r == self.spec_scale(),
    {
        &self.scale
    }

    /// Reads a Scala tuning file.
    pub fn from_str(s: &str) -> (r: Result<Self, Error>)
        ensures
            match scl_error(trimmed_lines(s@)) {
                Some(e) => r == Err::<Self, Error>(e),
                None => r matches Ok(f) && f.holds_lines(trimmed_lines(s@)),
            },
    {
        let chars = chars_of(s);
        let all_lines = split_lines(chars.as_slice());
        let mut ts: Vec<Vec<char>> = Vec::new();
        let mut i: usize = 0;
        while i < all_lines.len()
            invariant
                i <= all_lines.len(),
                views(ts@) == views(all_lines@).take(i as int).map_values(|l: Seq<char>| trim(l)),
            decreases all_lines.len() - i,
        {
            let l = trim_chars(all_lines[i].as_slice());
            let ghost before = views(ts@);
            ts.push(l);
            assert(views(ts@) =~= before.push(l@));
            assert(views(all_lines@).take(i + 1) =~= views(all_lines@).take(i as int).push(
                all_lines@[i as int]@,
            ));
            i = i + 1;
            assert(views(ts@) =~= views(all_lines@).take(i as int).map_values(
                |l: Seq<char>| trim(l),
            ));
        }
        assert(views(all_lines@).take(all_lines.len() as int) =~= views(all_lines@));
        Self::from_lines(&ts)
    }

    fn from_lines(ts: &Vec<Vec<char>>) -> (r: Result<Self, Error>)
        ensures
            match scl_error(views(ts@)) {
                Some(e) => r == Err::<Self, Error>(e),
                None => r matches Ok(f) && f.holds_lines(views(ts@)),
            },
    {
        let ghost t = views(ts@);
        if ts.len() == 0 {
            return Err(Error::InvalidTuningString);
        }
        let first = &ts[0];
        let has_file_name = first.len() > 0 && first[0] == '!' && ends_with_scl_exec(first);
        let (file_name, start) = if has_file_name {
            let name = trim_chars(skip_first(first).as_slice());
            (Some(name), 1usize)
        } else {
            (None, 0usize)
        };
        assert(views(ts@.skip(start as int)) =~= scl_body(t));
        let non_comment_lines = keep_non_comment(ts, start);
        if non_comment_lines.len() == 0 {
            return Err(Error::NoDescription);
        }
        let description = copy_chars(&non_comment_lines[0]);
        let rest = keep_non_blank(&non_comment_lines, 1);
        assert(views(non_comment_lines@.skip(1)) =~= non_comment(scl_body(t)).drop_first());
        if rest.len() == 0 {
            return Err(Error::NoIntervalCount);
        }
        let count = match parse_usize(rest[0].as_slice()) {
            Ok(n) => n,
            Err(e) => return Err(Error::ParseInt(e)),
        };
        let ghost lines_after = views(rest@).drop_first();
        assert(views(rest@) == scl_after_description(t));
        let mut intervals: Vec<Interval> = Vec::new();
        let mut k: usize = 1;
        while k < rest.len()
            invariant
                1 <= k <= rest.len(),
                lines_after == views(rest@).drop_first(),
                t == views(ts@),
                first_interval_error(lines_after) is Some ==> scl_error(t) == first_interval_error(
                    lines_after,
                ),
                first_interval_error(lines_after.take(k - 1)) is None,
                intervals@.len() == k - 1,
                forall|j: int|
                    0 <= j < k - 1 ==> Ok::<Interval, Error>(#[trigger] intervals@[j])
                        == interval_result(lines_after[j]),
            decreases rest.len() - k,
        {
            assert(lines_after.take(k as int).drop_last() =~= lines_after.take(k - 1));
            assert(lines_after[k - 1] == rest@[k as int]@);
            let interval = match Interval::from_chars(rest[k].as_slice()) {
                Ok(x) => x,
                Err(e) => {
                    assert(lines_after.take(k as int).last() == lines_after[k - 1]);
                    assert(first_interval_error(lines_after.take(k as int)) == Some(e));
                    proof {
                        lemma_first_interval_error_extends(lines_after, k as int);
                    }
                    return Err(e);
                },
            };
            intervals.push(interval);
            k = k + 1;
        }
        assert(lines_after.take(rest.len() - 1) =~= lines_after);
        if intervals.len() != count {
            return Err(Error::IncorrectNumberOfNotes);
        }
        let scale = match Scale::new(intervals) {
            Ok(s) => s,
            Err(e) => return Err(e),
        };
        Ok(SclFile { file_name, description, scale })
    }
}

proof fn lemma_first_interval_error_extends(ls: Seq<Seq<char>>, k: int)
    requires
        0 < k <= ls.len(),
        first_interval_error(ls.take(k)) is Some,
    ensures
        first_interval_error(ls) == first_interval_error(ls.take(k)),
    decreases ls.len(),
{
    if k < ls.len() {
        assert(ls.drop_last().take(k) =~= ls.take(k));
        lemma_first_interval_error_extends(ls.drop_last(), k);
    } else {
        assert(ls.take(k) =~= ls);
    }
}

fn ends_with_scl_exec(l: &Vec<char>) -> (r: bool)
    ensures
        r == ends_with_scl(l@),
{
    let n = l.len();
    if n < 4 {
        return false;
    }
    let r = l[n - 4] == '.' && l[n - 3] == 's' && l[n - 2] == 'c' && l[n - 1] == 'l';
    assert(r == (l@.subrange(n - 4, n as int) =~= seq!['.', 's', 'c', 'l']));
    r
}

fn skip_first(l: &Vec<char>) -> (r: Vec<char>)
    requires
        l@.len() > 0,
    ensures
        r@ == l@.drop_first(),
{
    let mut r: Vec<char> = Vec::new();
    let mut i: usize = 1;
    while i < l.len()
        invariant
            1 <= i <= l.len(),
            r@ == l@.subrange(1, i as int),
        decreases l.len() - i,
    {
        r.push(l[i]);
        i = i + 1;
        assert(r@ =~= l@.subrange(1, i as int));
    }
    r
}

/// The lines of `ls` from index `start` on that are not comments.
fn keep_non_comment(ls: &Vec<Vec<char>>, start: usize) -> (r: Vec<Vec<char>>)
    requires
        start <= ls.len(),
    ensures
        views(r@) == non_comment(views(ls@.skip(start as int))),
{
    let ghost src = views(ls@.skip(start as int));
    let mut r: Vec<Vec<char>> = Vec::new();
    let mut i: usize = start;
    assert(src.take(0) =~= Seq::<Seq<char>>::empty());
    while i < ls.len()
        invariant
            start <= i <= ls.len(),
            src == views(ls@.skip(start as int)),
            views(r@) == non_comment(src.take(i - start)),
        decreases ls.len() - i,
    {
        assert(src.take(i - start + 1).drop_last() =~= src.take(i - start));
        assert(src[i - start] == ls@[i as int]@);
        if ls[i].len() > 0 && ls[i][0] == '!' {
        } else {
            let ghost before = views(r@);
            r.push(copy_chars(&ls[i]));
            assert(views(r@) =~= before.push(ls@[i as int]@));
        }
        i = i + 1;
    }
    assert(src.take(ls.len() - start) =~= src);
    r
}

/// The lines of `ls` from index `start` on that are not empty.
fn keep_non_blank(ls: &Vec<Vec<char>>, start: usize) -> (r: Vec<Vec<char>>)
    requires
        start <= ls.len(),
    ensures
        views(r@) == non_blank(views(ls@.skip(start as int))),
{
    let ghost src = views(ls@.skip(start as int));
    let mut r: Vec<Vec<char>> = Vec::new();
    let mut i: usize = start;
    assert(src.take(0) =~= Seq::<Seq<char>>::empty());
    while i < ls.len()
        invariant
            start <= i <= ls.len(),
            src == views(ls@.skip(start as int)),
            views(r@) == non_blank(src.take(i - start)),
        decreases ls.len() - i,
    {
        assert(src.take(i - start + 1).drop_last() =~= src.take(i - start));
        assert(src[i - start] == ls@[i as int]@);
        if ls[i].len() == 0 {
        } else {
            let ghost before = views(r@);
            r.push(copy_chars(&ls[i]));
            assert(views(r@) =~= before.push(ls@[i as int]@));
        }
        i = i + 1;
    }
    assert(src.take(ls.len() - start) =~= src);
    r
}

/// A scale file whose last line has no line feed reads the same as with one
/// appended: the final line still counts.
pub proof fn law_scl_final_line_feed_optional(s: Seq<char>)
    requires
        s.len() > 0,
        s.last() != '\n',
        s.last() != '\r',
    ensures
        trimmed_lines(s.push('\n')) == trimmed_lines(s),
        scl_error(trimmed_lines(s.push('\n'))) == scl_error(trimmed_lines(s)),
{
    law_lines_final_line_feed_optional(s);
}

} // verus!
