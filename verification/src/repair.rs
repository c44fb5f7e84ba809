//! The repair pipeline over in-memory folder contents.
//!
//! A caller reads the folder's files, hands their bytes here, and writes
//! back whatever this module returns. The pipeline itself never touches a
//! file: it removes the duplicated packet from the CDTEXT.BIN bytes, and,
//! only when that changed something, rewrites the descriptor's size field
//! and the manifest's digest lines.

use vstd::prelude::*;

use crate::bytes::contains_seq;
use crate::bytes::contains_bytes;
use crate::patch::fix_cdtext_bin;
use crate::patch::should_fix;
use crate::patch::fixed;
use crate::patch::repaired;
use crate::patch::marker_at;
use crate::patch::first_marker;
use crate::patch::second_marker;
use crate::patch::lemma_first_marker_from;
use crate::descriptor::update_size_field;
use crate::descriptor::substituted;
use crate::descriptor::cdtext_bytes;
use crate::descriptor::cdtext_needle;
use crate::manifest::rewrite_manifest;
use crate::manifest::rewritten_manifest;
use crate::manifest::entries_view;
use crate::digest::md5_hex;
use crate::digest::md5_hex_of;

verus! {

/// The ASCII bytes of "CDTEXT.BIN".
pub open spec fn cdtext_bin_name() -> Seq<u8> {
    seq![0x43u8, 0x44u8, 0x54u8, 0x45u8, 0x58u8, 0x54u8, 0x2eu8, 0x42u8, 0x49u8, 0x4eu8]
}

/// The ASCII bytes of "DDPMS".
pub open spec fn ddpms_name() -> Seq<u8> {
    seq![0x44u8, 0x44u8, 0x50u8, 0x4du8, 0x53u8]
}

/// The view of an optional byte vector.
pub open spec fn opt_bytes_view(o: Option<&Vec<u8>>) -> Option<Seq<u8>> {
    match o {
        Some(v) => Some(v@),
        None => None,
    }
}

/// The manifest entries after a fix: CDTEXT.BIN with the digest of the
/// patched bytes, then DDPMS with the digest of its bytes where those were
/// given.
pub open spec fn manifest_entries(new_cdtext: Seq<u8>, ddpms: Option<Seq<u8>>) -> Seq<
    (Seq<u8>, Seq<u8>),
> {
    match ddpms {
        Some(d) => seq![
            (cdtext_bin_name(), md5_hex_of(new_cdtext)),
            (ddpms_name(), md5_hex_of(d)),
        ],
        None => seq![(cdtext_bin_name(), md5_hex_of(new_cdtext))],
    }
}

/// What a repair pass decided to write back. A `None` field means the file
/// is to be left alone.
pub struct RepairPlan {
    /// The patched CDTEXT.BIN bytes, when the duplicated packet was removed.
    pub new_cdtext: Option<Vec<u8>>,
    /// The rewritten descriptor text, when the size substitution changed it.
    pub new_descriptor: Option<Vec<u8>>,
    /// The rewritten manifest text, when a manifest was given and a fix
    /// happened.
    pub new_manifest: Option<Vec<u8>>,
}

/// The ASCII bytes of "CDTEXT.BIN" as a vector.
fn cdtext_bin_name_vec() -> (r: Vec<u8>)
    ensures
        r@ == cdtext_bin_name(),
{
    let mut v: Vec<u8> = Vec::new();
    v.push(0x43); // C
    v.push(0x44); // D
    v.push(0x54); // T
    v.push(0x45); // E
    v.push(0x58); // X
    v.push(0x54); // T
    v.push(0x2e); // .
    v.push(0x42); // B
    v.push(0x49); // I
    v.push(0x4e); // N
    proof {
        assert(v@ =~= cdtext_bin_name());
    }
    v
}

/// The ASCII bytes of "DDPMS" as a vector.
fn ddpms_name_vec() -> (r: Vec<u8>)
    ensures
        r@ == ddpms_name(),
{
    let mut v: Vec<u8> = Vec::new();
    v.push(0x44); // D
    v.push(0x44); // D
    v.push(0x50); // P
    v.push(0x4d); // M
    v.push(0x53); // S
    proof {
        assert(v@ =~= ddpms_name());
    }
    v
}

/// The index of the first file content, in the given order, that holds the
/// bytes "CDTEXT": that file is taken for the descriptor.
pub fn find_descriptor(files: &Vec<Vec<u8>>) -> (r: Option<usize>)
    ensures
        match r {
            Some(i) => i < files@.len() && contains_seq(files@[i as int]@, cdtext_bytes())
                && forall|j: int| 0 <= j < i ==> !contains_seq(files@[j]@, cdtext_bytes()),
            None => forall|j: int|
                0 <= j < files@.len() ==> !contains_seq(files@[j]@, cdtext_bytes()),
        },
{
    let token = cdtext_needle();
    let n = files.len();
    let mut i: usize = 0;
    while i < n
        invariant
            i <= n,
            n == files@.len(),
            token@ == cdtext_bytes(),
            forall|j: int| 0 <= j < i ==> !contains_seq(files@[j]@, cdtext_bytes()),
        decreases n - i,
    {
        if contains_bytes(&files[i], &token) {
            return Some(i);
        }
        i += 1;
    }
    None
}

/// Runs the whole repair on the folder's file contents.
///
/// `cdtext` is the CDTEXT.BIN bytes; `descriptor`, `manifest` and `ddpms`
/// are the descriptor text, the `checksum.md5` text and the DDPMS bytes,
/// each given only where the folder has that file. The plan's fields say
/// what to write back: nothing at all when the defect is absent; otherwise
/// the patched CDTEXT.BIN bytes, the descriptor rewritten to the new size
/// where that changes it, and the manifest rewritten with fresh digests for
/// CDTEXT.BIN and, where given, DDPMS.
pub fn plan_repair(
    cdtext: &Vec<u8>,
    descriptor: Option<&Vec<u8>>,
    manifest: Option<&Vec<u8>>,
    ddpms: Option<&Vec<u8>>,
) -> (r: RepairPlan)
    ensures
        match r.new_cdtext {
            Some(v) => should_fix(cdtext@) && v@ == fixed(cdtext@),
            None => !should_fix(cdtext@),
        },
        !should_fix(cdtext@) ==> r.new_descriptor is None && r.new_manifest is None,
        should_fix(cdtext@) ==> (match descriptor {
            Some(d) => (match r.new_descriptor {
                Some(v) => v@ == substituted(d@, fixed(cdtext@).len()) && v@ != d@,
                None => substituted(d@, fixed(cdtext@).len()) == d@,
            }),
            None => r.new_descriptor is None,
        }),
        should_fix(cdtext@) ==> (match manifest {
            Some(m) => r.new_manifest matches Some(v) && v@ == rewritten_manifest(
                m@,
                manifest_entries(fixed(cdtext@), opt_bytes_view(ddpms)),
            ),
            None => r.new_manifest is None,
        }),
{
    let new_cdtext = match fix_cdtext_bin(cdtext) {
        Some(v) => v,
        None => {
            return RepairPlan { new_cdtext: None, new_descriptor: None, new_manifest: None };
        },
    };
    let new_descriptor = match descriptor {
        Some(d) => update_size_field(d, new_cdtext.len() as u64),
        None => None,
    };
    let new_manifest = match manifest {
        Some(m) => {
            let mut entries: Vec<(Vec<u8>, Vec<u8>)> = Vec::new();
            let cd_digest = md5_hex(&new_cdtext);
            entries.push((cdtext_bin_name_vec(), cd_digest));
            match ddpms {
                Some(dd) => {
                    let dd_digest = md5_hex(dd);
                    entries.push((ddpms_name_vec(), dd_digest));
                },
                None => {},
            }
            proof {
                assert(entries_view(entries@) =~= manifest_entries(
                    fixed(cdtext@),
                    opt_bytes_view(ddpms),
                ));
            }
            Some(rewrite_manifest(m, &entries))
        },
        None => None,
    };
    RepairPlan { new_cdtext: Some(new_cdtext), new_descriptor, new_manifest }
}

/// Removing the duplicate at the second of at most two qualifying marker
/// offsets resolves the defect: the patched bytes no longer qualify for a
/// removal.
pub proof fn lemma_fix_resolves(d: Seq<u8>)
    requires
        should_fix(d),
        forall|p: int| marker_at(d, p) ==> p == first_marker(d) || p == second_marker(d),
    ensures
        !should_fix(fixed(d)),
{
    let f = fixed(d);
    let fst = first_marker(d);
    let snd = second_marker(d);
    lemma_first_marker_from(d, 0);
    lemma_first_marker_from(d, fst + 1);
    assert(fst < snd);
    assert(f.len() + 18 == d.len());
    assert forall|q: int| marker_at(f, q) implies q == fst by {
        if q < snd {
            assert(f[q] == d[q]);
            assert(marker_at(d, q));
        } else {
            assert(f[q] == d[q + 18]);
            assert(marker_at(d, q + 18));
        }
    };
    if should_fix(f) {
        lemma_first_marker_from(f, 0);
        lemma_first_marker_from(f, first_marker(f) + 1);
        assert(marker_at(f, first_marker(f)));
        assert(marker_at(f, second_marker(f)));
        assert(second_marker(f) >= first_marker(f) + 1);
        assert(false);
    }
}

/// Idempotence of the repair on bytes with at most two qualifying marker
/// offsets (every qualifying offset is one of the two the scan takes): a
/// second pass over what the first pass left changes nothing.
pub proof fn lemma_repair_idempotent(d: Seq<u8>)
    requires
        forall|p: int| marker_at(d, p) ==> p == first_marker(d) || p == second_marker(d),
    ensures
        repaired(repaired(d)) == repaired(d),
{
    if should_fix(d) {
        lemma_fix_resolves(d);
    }
}

} // verus!
