use vstd::prelude::*;
use crate::error::Error;
use crate::u7::U7;

verus! {

/// What goes wrong reading a seven-bit value at index `i` of `bytes`, if
/// anything: the input has ended, or the byte is 128 or more.
pub open spec fn u7_error_at(bytes: Seq<u8>, i: int) -> Option<Error> {
    if i >= bytes.len() {
        Some(Error::ReadFailed)
    } else if bytes[i] >= 128 {
        Some(Error::OutOfRange(bytes[i]))
    } else {
        None
    }
}

/// Reading seven-bit values at indices `lo..hi` in turn, the first problem met.
pub open spec fn first_u7_error(bytes: Seq<u8>, lo: int, hi: int) -> Option<Error>
    decreases hi - lo,
{
    if hi <= lo {
        None
    } else {
        match first_u7_error(bytes, lo, hi - 1) {
            Some(e) => Some(e),
            None => u7_error_at(bytes, hi - 1),
        }
    }
}

/// Reads the byte at `*pos` and moves past it.
pub fn read_u8(bytes: &[u8], pos: &mut usize) -> (r: Result<u8, Error>)
    ensures
        *old(pos) < bytes.len() ==> r == Ok::<u8, Error>(bytes@[*old(pos) as int]) && *final(pos)
            == *old(pos) + 1,
        *old(pos) >= bytes.len() ==> r == Err::<u8, Error>(Error::ReadFailed) && *final(pos)
            == *old(pos),
{
    if *pos >= bytes.len() {
        return Err(Error::ReadFailed);
    }
    let b = bytes[*pos];
    *pos = *pos + 1;
    Ok(b)
}

/// Reads the byte at `*pos` as a seven-bit value and moves past it.
pub fn read<U: U7>(bytes: &[u8], pos: &mut usize) -> (r: Result<U, Error>)
    ensures
        *old(pos) < bytes.len() ==> *final(pos) == *old(pos) + 1,
        *old(pos) >= bytes.len() ==> *final(pos) == *old(pos),
        match u7_error_at(bytes@, *old(pos) as int) {
            Some(e) => r == Err::<U, Error>(e),
            None => r matches Ok(x) && x.value() == bytes@[*old(pos) as int],
        },
{
    let b = match read_u8(bytes, pos) {
        Ok(b) => b,
        Err(e) => return Err(e),
    };
    match U::try_from_u8(b) {
        Ok(x) => Ok(x),
        Err(_) => Err(Error::OutOfRange(b)),
    }
}

/// Reads `n` seven-bit values starting at `*pos`.
pub fn read_multi<U: U7>(bytes: &[u8], pos: &mut usize, n: usize) -> (r: Result<Vec<U>, Error>)
    requires
        *old(pos) + n <= usize::MAX,
    ensures
        match first_u7_error(bytes@, *old(pos) as int, *old(pos) + n) {
            Some(e) => r == Err::<Vec<U>, Error>(e) && (e == Error::ReadFailed ==> *final(pos)
                == if *old(pos) < bytes@.len() {
                bytes@.len() as usize
            } else {
                *old(pos)
            }) && (e is OutOfRange ==> *old(pos) < *final(pos) <= bytes@.len() && first_u7_error(
                bytes@,
                *old(pos) as int,
                *final(pos) - 1,
            ) is None && bytes@[*final(pos) - 1] >= 128),
            None => r matches Ok(v) && v@.len() == n && *final(pos) == *old(pos) + n && forall|
                i: int,
            |
                0 <= i < n ==> (#[trigger] v@[i]).value() == bytes@[*old(pos) + i],
        },
{
    let ghost start = *pos as int;
    let mut result: Vec<U> = Vec::new();
    let mut i: usize = 0;
    while i < n
        invariant
            i <= n,
            start + n <= usize::MAX,
            *pos == start + i,
            start == *old(pos),
            first_u7_error(bytes@, start, start + i) is None,
            result@.len() == i,
            forall|j: int| 0 <= j < i ==> (#[trigger] result@[j]).value() == bytes@[start + j],
        decreases n - i,
    {
        match read::<U>(bytes, pos) {
            Ok(x) => {
                result.push(x);
            },
            Err(e) => {
                assert(first_u7_error(bytes@, start, start + i + 1) == u7_error_at(bytes@, start + i));
                proof {
                    lemma_first_u7_error_extends(bytes@, start, start + i + 1, start + n);
                    lemma_first_u7_error_none(bytes@, start, start + i);
                }
                return Err(e);
            },
        }
        i = i + 1;
    }
    Ok(result)
}

/// A problem met within `lo..mid` is the first problem within `lo..hi`.
pub proof fn lemma_first_u7_error_extends(bytes: Seq<u8>, lo: int, mid: int, hi: int)
    requires
        lo <= mid <= hi,
        first_u7_error(bytes, lo, mid) is Some,
    ensures
        first_u7_error(bytes, lo, hi) == first_u7_error(bytes, lo, mid),
    decreases hi - mid,
{
    if mid < hi {
        lemma_first_u7_error_extends(bytes, lo, mid, hi - 1);
    }
}

/// When nothing goes wrong within `lo..mid`, the first problem within
/// `lo..hi` is the first within `mid..hi`.
pub proof fn lemma_first_u7_error_split(bytes: Seq<u8>, lo: int, mid: int, hi: int)
    requires
        lo <= mid <= hi,
        first_u7_error(bytes, lo, mid) is None,
    ensures
        first_u7_error(bytes, lo, hi) == first_u7_error(bytes, mid, hi),
    decreases hi - mid,
{
    if mid < hi {
        lemma_first_u7_error_split(bytes, lo, mid, hi - 1);
    }
}

/// No problem within `lo..hi` means every byte there is present and below 128.
pub proof fn lemma_first_u7_error_none(bytes: Seq<u8>, lo: int, hi: int)
    requires
        lo <= hi,
        first_u7_error(bytes, lo, hi) is None,
    ensures
        lo == hi || hi <= bytes.len(),
        forall|i: int| lo <= i < hi ==> bytes[i] < 128,
    decreases hi - lo,
{
    if lo < hi {
        lemma_first_u7_error_none(bytes, lo, hi - 1);
    }
}

/// Every byte within `lo..hi` present and below 128 means no problem there.
pub proof fn lemma_first_u7_error_none_from(bytes: Seq<u8>, lo: int, hi: int)
    requires
        lo <= hi <= bytes.len(),
        forall|i: int| lo <= i < hi ==> bytes[i] < 128,
    ensures
        first_u7_error(bytes, lo, hi) is None,
    decreases hi - lo,
{
    if lo < hi {
        lemma_first_u7_error_none_from(bytes, lo, hi - 1);
    }
}

} // verus!
