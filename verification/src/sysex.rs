use vstd::prelude::*;
use midly::live::{LiveEvent, SystemCommon};
use midly::num::u7;

verus! {

/// A standalone System Exclusive message carrying `data`: the start byte,
/// the data, then the end byte.
pub open spec fn sysex_frame(data: Seq<u8>) -> Seq<u8> {
    seq![0xf0u8] + data + seq![0xf7u8]
}

/// Writes `data` as a System Exclusive event with midly
/// (`LiveEvent::Common(SystemCommon::SysEx(..)).write_std`).
///
/// Claimed of midly 0.5: `SystemCommon::write` writes 0xF0, the data bytes
/// and 0xF7, in that order, and writing into a `Vec<u8>` cannot fail; with
/// every data byte below 128 `u7::slice_from_int` keeps all of them.
#[verifier::external_body]
pub(crate) fn write_sysex(data: &[u8]) -> (r: Vec<u8>)
    requires
        forall|i: int| 0 <= i < data@.len() ==> data@[i] < 128,
    ensures
        r@ == sysex_frame(data@),
{
    let event = LiveEvent::Common(SystemCommon::SysEx(u7::slice_from_int(data)));
    let mut buffer = Vec::new();
    let _ = event.write_std(&mut buffer);
    buffer
}

} // verus!
