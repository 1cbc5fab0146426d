//! Decoding of kernel-trace process records.
//!
//! The kernel process provider delivers a binary payload per record: a
//! fixed prefix of numeric fields, a variable-length security-identifier
//! block, and the image path as a null-terminated wide string.  The decoder
//! is a cursor with an explicit bounds check at every read; a malformed or
//! truncated record decodes to nothing and is dropped by the caller, never
//! fatal.

use vstd::prelude::*;

use crate::events::{ProcessMessage, ProcessStatus};
use crate::text::{decode_utf16, utf16_decoded};

verus! {

broadcast use vstd::std_specs::vec::axiom_spec_len;

/// Record id of a process-start record.
pub const PROCESS_START_EVENT_ID: u16 = 1;

/// Record id of a process-stop record.
pub const PROCESS_STOP_EVENT_ID: u16 = 2;

/// The little-endian 16-bit value at byte offset `i`.
pub open spec fn u16_le(d: Seq<u8>, i: int) -> u16 {
    (d[i] + d[i + 1] * 0x100) as u16
}

/// The little-endian 32-bit value at byte offset `i`.
pub open spec fn u32_le(d: Seq<u8>, i: int) -> u32 {
    (d[i] + d[i + 1] * 0x100 + d[i + 2] * 0x10000 + d[i + 3] * 0x1000000) as u32
}

/// How many whole non-zero 16-bit units stand at byte offset `off`: the
/// wide string ends at a zero unit or where the buffer can hold no whole
/// unit more.
pub open spec fn wide_len(d: Seq<u8>, off: int) -> nat
    decreases d.len() - off,
    when off <= d.len()
{
    if off < 0 || off + 2 > d.len() {
        0
    } else if u16_le(d, off) == 0 {
        0
    } else {
        1 + wide_len(d, off + 2)
    }
}

/// The wide-string units at byte offset `off`.
pub open spec fn wide_units(d: Seq<u8>, off: int) -> Seq<u16> {
    Seq::new(wide_len(d, off), |l: int| u16_le(d, off + 2 * l))
}

/// What a process-start payload holds: the pid in its first four bytes,
/// then fixed numeric fields up to byte 48, a security-identifier block of
/// `8 + 4 * d[49]` bytes, and the image path as a non-empty wide string.
/// Anything shorter decodes to nothing.
pub open spec fn parse_start(d: Seq<u8>) -> Option<(u32, Seq<u16>)> {
    if d.len() < 50 {
        None
    } else {
        let pid = u32_le(d, 0);
        let off = 56 + 4 * (d[49] as int);
        if off >= d.len() {
            None
        } else {
            let units = wide_units(d, off);
            if units.len() == 0 {
                None
            } else {
                Some((pid, units))
            }
        }
    }
}

/// What a process-stop payload holds: the pid in its first four bytes.
pub open spec fn parse_stop(d: Seq<u8>) -> Option<u32> {
    if d.len() < 4 {
        None
    } else {
        Some(u32_le(d, 0))
    }
}

/// What a whole record decodes to: pid, status and path for a start
/// record, pid and an empty path for a stop record, nothing for any other
/// record id or a malformed payload.
pub open spec fn decoded_event(event_id: u16, d: Seq<u8>) -> Option<(u32, ProcessStatus, Seq<
    char,
>)> {
    if event_id == PROCESS_START_EVENT_ID {
        match parse_start(d) {
            Some(p) => Some((p.0, ProcessStatus::Started, utf16_decoded(p.1))),
            None => None,
        }
    } else if event_id == PROCESS_STOP_EVENT_ID {
        match parse_stop(d) {
            Some(pid) => Some((pid, ProcessStatus::Terminated, Seq::empty())),
            None => None,
        }
    } else {
        None
    }
}

/// Reads the little-endian 16-bit value at byte offset `i`.
fn read_u16_le(d: &Vec<u8>, i: usize) -> (r: u16)
    requires
        i + 2 <= d.len(),
    ensures
        r == u16_le(d@, i as int),
{
    (d[i] as u16) + (d[i + 1] as u16) * 0x100
}

/// Reads the little-endian 32-bit value at byte offset `i`.
fn read_u32_le(d: &Vec<u8>, i: usize) -> (r: u32)
    requires
        i + 4 <= d.len(),
    ensures
        r == u32_le(d@, i as int),
{
    (d[i] as u32) + (d[i + 1] as u32) * 0x100 + (d[i + 2] as u32) * 0x10000 + (d[i + 3] as u32)
        * 0x1000000
}

/// Counts the whole non-zero 16-bit units at byte offset `off`.
#[verifier::loop_isolation(false)]
fn wide_length(d: &Vec<u8>, off: usize) -> (l: usize)
    requires
        off <= d@.len(),
    ensures
        l == wide_len(d@, off as int),
        off + 2 * l <= d@.len(),
{
    let avail = (d.len() - off) / 2;
    let mut l: usize = 0;
    while l < avail && read_u16_le(d, off + 2 * l) != 0
        invariant
            l <= avail,
            avail == ((d@.len() - off) / 2) as usize,
            wide_len(d@, off as int) == l + wide_len(d@, off + 2 * (l as int)),
        decreases avail - l,
    {
        l = l + 1;
    }
    proof {
        if l == avail {
            assert(off + 2 * (l as int) + 2 > d@.len());
        }
    }
    l
}

/// Decodes a process-start payload into pid and image-path units.
#[verifier::loop_isolation(false)]
pub fn decode_start_payload(d: &Vec<u8>) -> (r: Option<(u32, Vec<u16>)>)
    ensures
        (match r {
            Some(p) => parse_start(d@) == Some((p.0, p.1@)),
            None => parse_start(d@) == None::<(u32, Seq<u16>)>,
        }),
{
    if d.len() < 50 {
        return None;
    }
    let pid = read_u32_le(d, 0);
    let count = d[49];
    let off: usize = 56 + 4 * (count as usize);
    if off >= d.len() {
        return None;
    }
    let l = wide_length(d, off);
    if l == 0 {
        proof {
            assert(wide_units(d@, off as int).len() == 0);
        }
        return None;
    }
    let mut units: Vec<u16> = Vec::new();
    let mut i: usize = 0;
    while i < l
        invariant
            i <= l,
            units@ == wide_units(d@, off as int).subrange(0, i as int),
        decreases l - i,
    {
        let u = read_u16_le(d, off + 2 * i);
        units.push(u);
        i = i + 1;
        proof {
            assert(units@ =~= wide_units(d@, off as int).subrange(0, i as int));
        }
    }
    proof {
        assert(units@ =~= wide_units(d@, off as int));
    }
    Some((pid, units))
}

/// Decodes a process-stop payload into its pid.
pub fn decode_stop_payload(d: &Vec<u8>) -> (r: Option<u32>)
    ensures
        (match r {
            Some(pid) => parse_stop(d@) == Some(pid),
            None => parse_stop(d@) == None::<u32>,
        }),
{
    if d.len() < 4 {
        return None;
    }
    Some(read_u32_le(d, 0))
}

/// Decodes one kernel-trace record, given its record id and raw payload:
/// a normalized lifecycle message, or nothing for a record of another kind
/// or with a malformed payload.
pub fn decode_event_record(event_id: u16, data: &Vec<u8>) -> (r: Option<ProcessMessage>)
    ensures
        (match r {
            Some(msg) => decoded_event(event_id, data@) == Some(
                (msg.pid, msg.status, msg.path@),
            ),
            None => decoded_event(event_id, data@) == None::<(u32, ProcessStatus, Seq<char>)>,
        }),
{
    if event_id == PROCESS_START_EVENT_ID {
        match decode_start_payload(data) {
            Some(p) => {
                let path = decode_utf16(&p.1);
                Some(ProcessMessage { pid: p.0, status: ProcessStatus::Started, path: path })
            },
            None => None,
        }
    } else if event_id == PROCESS_STOP_EVENT_ID {
        match decode_stop_payload(data) {
            Some(pid) => Some(
                ProcessMessage { pid: pid, status: ProcessStatus::Terminated, path: String::new() },
            ),
            None => None,
        }
    } else {
        None
    }
}

} // verus!
