//! Rewriting the `checksum.md5` manifest.
//!
//! The manifest is text, one line per tracked file, in the shape
//! `<hex-digest> *<filename>`. Lines are split at line feeds; a carriage
//! return directly before a line feed belongs to the line ending. A line
//! that contains ` *<name>` for some entry is replaced, first entry in
//! order wins, by `<digest> *<name>`; every other line is kept with its
//! line ending normalized to a single line feed.

use vstd::prelude::*;

use crate::bytes::contains_seq;
use crate::bytes::contains_bytes;
use crate::bytes::append_range;
use crate::bytes::copy_range;

verus! {

/// The first index at or after `i` holding a line feed, or `s.len()`.
pub open spec fn line_end_from(s: Seq<u8>, i: int) -> int
    decreases s.len() - i,
{
    if 0 <= i < s.len() {
        if s[i] == 0x0a {
            i
        } else {
            line_end_from(s, i + 1)
        }
    } else {
        s.len() as int
    }
}

/// `line_end_from` returns the least line feed index at or after `i`, or
/// `s.len()` when no line feed follows.
pub proof fn lemma_line_end_from(s: Seq<u8>, i: int)
    requires
        0 <= i <= s.len(),
    ensures
        i <= line_end_from(s, i) <= s.len(),
        line_end_from(s, i) < s.len() ==> s[line_end_from(s, i)] == 0x0a,
        forall|k: int| i <= k < line_end_from(s, i) ==> s[k] != 0x0a,
    decreases s.len() - i,
{
    if 0 <= i < s.len() && s[i] != 0x0a {
        lemma_line_end_from(s, i + 1);
    }
}

/// ` *` followed by the file name: the marker that picks out the manifest
/// line of that file.
pub open spec fn name_marker(name: Seq<u8>) -> Seq<u8> {
    seq![0x20u8, 0x2au8] + name
}

/// A line with one trailing carriage return removed.
pub open spec fn strip_cr(line: Seq<u8>) -> Seq<u8> {
    if line.len() > 0 && line[line.len() - 1] == 0x0d {
        line.subrange(0, line.len() - 1)
    } else {
        line
    }
}

/// A manifest line after rewriting. The first entry `(name, digest)`, in
/// entry order, whose marker ` *<name>` occurs in the line replaces the
/// whole line with `<digest> *<name>`; a line matching no entry is kept.
pub open spec fn rewrite_line(line: Seq<u8>, entries: Seq<(Seq<u8>, Seq<u8>)>) -> Seq<u8>
    decreases entries.len(),
{
    if entries.len() == 0 {
        line
    } else if contains_seq(line, name_marker(entries[0].0)) {
        entries[0].1 + name_marker(entries[0].0)
    } else {
        rewrite_line(line, entries.drop_first())
    }
}

/// The manifest bytes from index `i` on, rewritten line by line. A line
/// that ended with a line feed has a carriage return directly before it
/// stripped before matching; the final line, when it has no line feed of
/// its own, is matched as it stands. Every emitted line ends with a line
/// feed.
pub open spec fn rewrite_from(s: Seq<u8>, i: int, entries: Seq<(Seq<u8>, Seq<u8>)>) -> Seq<u8>
    decreases s.len() - i,
    via rewrite_from_dec
{
    if !(0 <= i < s.len()) {
        Seq::<u8>::empty()
    } else {
        let k = line_end_from(s, i);
        if k < s.len() {
            rewrite_line(strip_cr(s.subrange(i, k)), entries) + seq![0x0au8] + rewrite_from(
                s,
                k + 1,
                entries,
            )
        } else {
            rewrite_line(s.subrange(i, k), entries) + seq![0x0au8]
        }
    }
}

#[via_fn]
proof fn rewrite_from_dec(s: Seq<u8>, i: int, entries: Seq<(Seq<u8>, Seq<u8>)>) {
    if 0 <= i < s.len() {
        lemma_line_end_from(s, i);
    }
}

/// The whole manifest after rewriting.
pub open spec fn rewritten_manifest(s: Seq<u8>, entries: Seq<(Seq<u8>, Seq<u8>)>) -> Seq<u8> {
    rewrite_from(s, 0, entries)
}

/// The views of a vector of `(name, digest)` byte-vector pairs.
pub open spec fn entries_view(entries: Seq<(Vec<u8>, Vec<u8>)>) -> Seq<(Seq<u8>, Seq<u8>)> {
    entries.map_values(|p: (Vec<u8>, Vec<u8>)| (p.0@, p.1@))
}

/// The least line feed index at or after `start`, or the length.
fn find_line_end(s: &Vec<u8>, start: usize) -> (r: usize)
    requires
        start <= s@.len(),
    ensures
        r as int == line_end_from(s@, start as int),
        start <= r <= s@.len(),
{
    let len = s.len();
    let mut i = start;
    while i < len && s[i] != 0x0a
        invariant
            start <= i <= len,
            len == s@.len(),
            line_end_from(s@, start as int) == line_end_from(s@, i as int),
        decreases len - i,
    {
        i += 1;
    }
    proof {
        lemma_line_end_from(s@, i as int);
    }
    i
}

/// ` *<name>` as a vector.
fn make_marker(name: &Vec<u8>) -> (r: Vec<u8>)
    ensures
        r@ == name_marker(name@),
{
    let mut v: Vec<u8> = Vec::new();
    v.push(0x20); // space
    v.push(0x2a); // *
    append_range(&mut v, name, 0, name.len());
    proof {
        assert(name@.subrange(0, name@.len() as int) =~= name@);
        assert(v@ =~= name_marker(name@));
    }
    v
}

/// One manifest line, rewritten against the entries in order.
fn rewrite_line_bytes(line: &Vec<u8>, entries: &Vec<(Vec<u8>, Vec<u8>)>) -> (r: Vec<u8>)
    ensures
        r@ == rewrite_line(line@, entries_view(entries@)),
{
    let n = entries.len();
    let mut j: usize = 0;
    proof {
        assert(entries_view(entries@).skip(0) =~= entries_view(entries@));
    }
    while j < n
        invariant
            j <= n,
            n == entries@.len(),
            rewrite_line(line@, entries_view(entries@)) == rewrite_line(
                line@,
                entries_view(entries@).skip(j as int),
            ),
        decreases n - j,
    {
        let e = &entries[j];
        let marker = make_marker(&e.0);
        proof {
            assert(entries_view(entries@).skip(j as int)[0] == (e.0@, e.1@));
        }
        if contains_bytes(line, &marker) {
            let mut out: Vec<u8> = Vec::new();
            append_range(&mut out, &e.1, 0, e.1.len());
            append_range(&mut out, &marker, 0, marker.len());
            proof {
                assert(e.1@.subrange(0, e.1@.len() as int) =~= e.1@);
                assert(marker@.subrange(0, marker@.len() as int) =~= marker@);
                assert(out@ =~= e.1@ + name_marker(e.0@));
            }
            return out;
        }
        proof {
            assert(entries_view(entries@).skip(j as int).drop_first() =~= entries_view(
                entries@,
            ).skip(j + 1));
        }
        j += 1;
    }
    proof {
        assert(entries_view(entries@).skip(n as int).len() == 0);
    }
    let r = copy_range(line, 0, line.len());
    proof {
        assert(r@ =~= line@);
    }
    r
}

/// Rewrites the manifest text against the ordered `(name, digest)` entries:
/// each line whose content holds ` *<name>` becomes `<digest> *<name>` for
/// the first such entry, every other line is kept, and each line comes out
/// ending with a single line feed.
pub fn rewrite_manifest(text: &Vec<u8>, entries: &Vec<(Vec<u8>, Vec<u8>)>) -> (r: Vec<u8>)
    ensures
        r@ == rewritten_manifest(text@, entries_view(entries@)),
{
    let len = text.len();
    let mut out: Vec<u8> = Vec::new();
    let mut i: usize = 0;
    proof {
        assert(Seq::<u8>::empty() + rewrite_from(text@, 0, entries_view(entries@))
            =~= rewrite_from(text@, 0, entries_view(entries@)));
    }
    while i < len
        invariant
            i <= len,
            len == text@.len(),
            rewritten_manifest(text@, entries_view(entries@)) == out@ + rewrite_from(
                text@,
                i as int,
                entries_view(entries@),
            ),
        decreases len - i,
    {
        let ghost before = out@;
        let k = find_line_end(text, i);
        let mut line = copy_range(text, i, k);
        if k < len {
            if line.len() > 0 && line[line.len() - 1] == 0x0d {
                line.pop();
            }
            proof {
                assert(line@ =~= strip_cr(text@.subrange(i as int, k as int)));
            }
        }
        let rl = rewrite_line_bytes(&line, entries);
        append_range(&mut out, &rl, 0, rl.len());
        out.push(0x0a);
        proof {
            assert(rl@.subrange(0, rl@.len() as int) =~= rl@);
            assert(out@ =~= before + (rl@ + seq![0x0au8]));
            if k < len {
                assert(before + (rl@ + seq![0x0au8]) + rewrite_from(
                    text@,
                    k + 1,
                    entries_view(entries@),
                ) =~= before + rewrite_from(text@, i as int, entries_view(entries@)));
            } else {
                assert(before + (rl@ + seq![0x0au8]) =~= before + rewrite_from(
                    text@,
                    i as int,
                    entries_view(entries@),
                ));
            }
        }
        if k < len {
            i = k + 1;
        } else {
            i = len;
            proof {
                assert(rewrite_from(text@, len as int, entries_view(entries@))
                    =~= Seq::<u8>::empty());
                assert(out@ + Seq::<u8>::empty() =~= out@);
            }
        }
    }
    proof {
        assert(rewrite_from(text@, len as int, entries_view(entries@)) =~= Seq::<u8>::empty());
        assert(out@ + Seq::<u8>::empty() =~= out@);
    }
    out
}

} // verus!
