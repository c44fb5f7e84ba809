//! Scanning CDTEXT.BIN bytes for genre-packet markers and removing the
//! duplicated packet.
//!
//! A CD-Text genre packet is an 18-byte run whose first byte is the marker
//! value 0x87. The scan is byte-by-byte (not stride-aligned): every offset
//! `i` with `i + 18 <= len` and a marker byte at `i` counts. When at least
//! two marker offsets exist and the 18-byte window at the first one contains
//! the ASCII bytes of "Classical", the 18 bytes starting at the second
//! marker offset are removed.

use vstd::prelude::*;

use crate::bytes::contains_seq;
use crate::bytes::copy_range;
use crate::bytes::append_range;
use crate::bytes::contains_bytes;

verus! {

/// Length in bytes of one CD-Text packet.
pub const PACKET_LEN: usize = 18;

/// The CD-Text pack type identifier for genre packets.
pub const MARKER: u8 = 0x87;

/// A qualifying marker offset: a marker byte with a full packet after it.
pub open spec fn marker_at(d: Seq<u8>, i: int) -> bool {
    0 <= i && i + 18 <= d.len() && d[i] == 0x87
}

/// The least qualifying marker offset that is `>= i`, or `d.len()` if there
/// is none.
pub open spec fn first_marker_from(d: Seq<u8>, i: int) -> int
    recommends
        0 <= i,
    decreases d.len() - i,
{
    if i + 18 <= d.len() && 0 <= i {
        if d[i] == 0x87 {
            i
        } else {
            first_marker_from(d, i + 1)
        }
    } else {
        d.len() as int
    }
}

/// The first qualifying marker offset of `d`, or `d.len()` if none exists.
pub open spec fn first_marker(d: Seq<u8>) -> int {
    first_marker_from(d, 0)
}

/// The second qualifying marker offset of `d`, or `d.len()` if none exists.
pub open spec fn second_marker(d: Seq<u8>) -> int {
    first_marker_from(d, first_marker(d) + 1)
}

/// The ASCII bytes of "Classical".
pub open spec fn classical_bytes() -> Seq<u8> {
    seq![0x43u8, 0x6cu8, 0x61u8, 0x73u8, 0x73u8, 0x69u8, 0x63u8, 0x61u8, 0x6cu8]
}

/// The defect is present: at least two qualifying marker offsets, and the
/// 18-byte window at the first one contains "Classical".
pub open spec fn should_fix(d: Seq<u8>) -> bool {
    first_marker(d) < d.len() && second_marker(d) < d.len() && contains_seq(
        d.subrange(first_marker(d), first_marker(d) + 18),
        classical_bytes(),
    )
}

/// `d` with the 18 bytes at the second marker offset removed: everything
/// before that offset, then everything from 18 bytes past it, in order.
pub open spec fn fixed(d: Seq<u8>) -> Seq<u8>
    recommends
        should_fix(d),
{
    d.subrange(0, second_marker(d)) + d.subrange(second_marker(d) + 18, d.len() as int)
}

/// What one repair pass leaves of `d`: the patched bytes when the defect is
/// present, `d` unchanged otherwise.
pub open spec fn repaired(d: Seq<u8>) -> Seq<u8> {
    if should_fix(d) {
        fixed(d)
    } else {
        d
    }
}

/// `first_marker_from` returns either the least qualifying marker offset at
/// or after `i`, or `d.len()` when there is none at or after `i`.
pub proof fn lemma_first_marker_from(d: Seq<u8>, i: int)
    requires
        0 <= i <= d.len(),
    ensures
        i <= first_marker_from(d, i) <= d.len(),
        first_marker_from(d, i) < d.len() ==> marker_at(d, first_marker_from(d, i)),
        forall|k: int| i <= k < first_marker_from(d, i) ==> !marker_at(d, k),
        first_marker_from(d, i) == d.len() ==> forall|k: int| k >= i ==> !marker_at(d, k),
    decreases d.len() - i,
{
    if i + 18 <= d.len() && d[i] != 0x87 {
        lemma_first_marker_from(d, i + 1);
    }
}

/// The least qualifying marker offset of `d`, if any.
fn find_marker_from(data: &Vec<u8>, start: usize) -> (r: Option<usize>)
    requires
        start <= data@.len(),
    ensures
        match r {
            Some(p) => p == first_marker_from(data@, start as int) && marker_at(data@, p as int),
            None => first_marker_from(data@, start as int) == data@.len(),
        },
{
    let len = data.len();
    let mut i = start;
    loop
        invariant
            start <= i <= len,
            len == data@.len(),
            first_marker_from(data@, start as int) == first_marker_from(data@, i as int),
        ensures
            i + 18 <= len && data@[i as int] == 0x87,
            i as int == first_marker_from(data@, start as int),
        decreases len - i,
    {
        if len - i < PACKET_LEN {
            proof {
                assert(first_marker_from(data@, i as int) == data@.len() as int);
            }
            return None;
        }
        if data[i] == MARKER {
            break;
        }
        i += 1;
    }
    proof {
        assert(marker_at(data@, i as int));
    }
    Some(i)
}

/// Removes the duplicated genre packet from the CDTEXT.BIN bytes.
///
/// Returns the patched bytes exactly when the defect is present: at least
/// two qualifying marker offsets and "Classical" somewhere in the 18-byte
/// window at the first one. The patched result is 18 bytes shorter and keeps
/// every byte outside the removed run in its relative order. On bytes
/// without the defect the result is `None` and nothing is to be written.
pub fn fix_cdtext_bin(data: &Vec<u8>) -> (r: Option<Vec<u8>>)
    ensures
        match r {
            Some(v) => should_fix(data@) && v@ == fixed(data@) && v@.len() + 18 == data@.len(),
            None => !should_fix(data@),
        },
{
    let len = data.len();
    let first = match find_marker_from(data, 0) {
        Some(p) => p,
        None => {
            return None;
        },
    };
    let second = match find_marker_from(data, first + 1) {
        Some(p) => p,
        None => {
            return None;
        },
    };
    let window = copy_range(data, first, first + PACKET_LEN);
    let needle: Vec<u8> = classical_needle();
    if !contains_bytes(&window, &needle) {
        return None;
    }
    let mut out = copy_range(data, 0, second);
    append_range(&mut out, data, second + PACKET_LEN, data.len());
    Some(out)
}

/// The ASCII bytes of "Classical" as a vector.
fn classical_needle() -> (r: Vec<u8>)
    ensures
        r@ == classical_bytes(),
{
    let mut v: Vec<u8> = Vec::new();
    v.push(0x43); // C
    v.push(0x6c); // l
    v.push(0x61); // a
    v.push(0x73); // s
    v.push(0x73); // s
    v.push(0x69); // i
    v.push(0x63); // c
    v.push(0x61); // a
    v.push(0x6c); // l
    proof {
        assert(v@ =~= classical_bytes());
    }
    v
}

} // verus!
