//! Byte-level substring search and small helpers on byte vectors.

use vstd::prelude::*;

verus! {

/// The bytes of `needle` occur in `hay` starting at index `i`.
pub open spec fn is_sub_at(hay: Seq<u8>, i: int, needle: Seq<u8>) -> bool {
    0 <= i && i + needle.len() <= hay.len() && hay.subrange(i, i + needle.len() as int)
        == needle
}

/// The bytes of `needle` occur contiguously somewhere in `hay`.
pub open spec fn contains_seq(hay: Seq<u8>, needle: Seq<u8>) -> bool {
    exists|i: int| is_sub_at(hay, i, needle)
}

/// Does `needle` occur in `hay` starting exactly at index `i`?
pub fn match_at(hay: &Vec<u8>, i: usize, needle: &Vec<u8>) -> (r: bool)
    requires
        i + needle@.len() <= hay@.len(),
    ensures
        r == is_sub_at(hay@, i as int, needle@),
{
    let n = needle.len();
    let h = hay.len();
    let mut j: usize = 0;
    while j < n
        invariant
            i + n <= h,
            h == hay@.len(),
            n == needle@.len(),
            j <= n,
            forall|t: int| 0 <= t < j ==> hay@[i + t] == needle@[t],
        decreases n - j,
    {
        if hay[i + j] != needle[j] {
            proof {
                if is_sub_at(hay@, i as int, needle@) {
                    assert(hay@.subrange(i as int, i + needle@.len() as int)[j as int]
                        == needle@[j as int]);
                }
            }
            return false;
        }
        j += 1;
    }
    proof {
        assert(hay@.subrange(i as int, i + needle@.len() as int) =~= needle@);
    }
    true
}

/// Does `needle` occur contiguously anywhere in `hay`?
pub fn contains_bytes(hay: &Vec<u8>, needle: &Vec<u8>) -> (r: bool)
    ensures
        r == contains_seq(hay@, needle@),
{
    let h = hay.len();
    let n = needle.len();
    if n > h {
        proof {
            assert(forall|k: int| !is_sub_at(hay@, k, needle@));
        }
        return false;
    }
    if n == 0 {
        proof {
            assert(hay@.subrange(0, 0) =~= needle@);
            assert(is_sub_at(hay@, 0, needle@));
        }
        return true;
    }
    let mut i: usize = 0;
    while i < h - n + 1
        invariant
            1 <= n <= h,
            h == hay@.len(),
            n == needle@.len(),
            i <= h - n + 1,
            forall|k: int| 0 <= k < i ==> !is_sub_at(hay@, k, needle@),
        decreases h - n + 1 - i,
    {
        if match_at(hay, i, needle) {
            return true;
        }
        i += 1;
    }
    proof {
        assert(forall|k: int| !is_sub_at(hay@, k, needle@));
    }
    false
}

/// A fresh copy of `data[lo..hi]`.
pub fn copy_range(data: &Vec<u8>, lo: usize, hi: usize) -> (r: Vec<u8>)
    requires
        lo <= hi,
        hi <= data@.len(),
    ensures
        r@ == data@.subrange(lo as int, hi as int),
{
    let mut out: Vec<u8> = Vec::new();
    let mut k = lo;
    while k < hi
        invariant
            lo <= k <= hi,
            hi <= data@.len(),
            out@ == data@.subrange(lo as int, k as int),
        decreases hi - k,
    {
        out.push(data[k]);
        proof {
            assert(out@ =~= data@.subrange(lo as int, k + 1 as int));
        }
        k += 1;
    }
    out
}

/// Appends a copy of `src[lo..hi]` to `dst`.
pub fn append_range(dst: &mut Vec<u8>, src: &Vec<u8>, lo: usize, hi: usize)
    requires
        lo <= hi,
        hi <= src@.len(),
    ensures
        final(dst)@ == old(dst)@ + src@.subrange(lo as int, hi as int),
{
    let mut k = lo;
    while k < hi
        invariant
            lo <= k <= hi,
            hi <= src@.len(),
            dst@ == old(dst)@ + src@.subrange(lo as int, k as int),
        decreases hi - k,
    {
        dst.push(src[k]);
        proof {
            assert(dst@ =~= old(dst)@ + src@.subrange(lo as int, k + 1 as int));
        }
        k += 1;
    }
}

/// Are the two byte vectors equal, byte for byte?
pub fn bytes_equal(a: &Vec<u8>, b: &Vec<u8>) -> (r: bool)
    ensures
        r == (a@ == b@),
{
    if a.len() != b.len() {
        return false;
    }
    let n = a.len();
    let mut i: usize = 0;
    while i < n
        invariant
            n == a@.len(),
            n == b@.len(),
            i <= n,
            forall|t: int| 0 <= t < i ==> a@[t] == b@[t],
        decreases n - i,
    {
        if a[i] != b[i] {
            return false;
        }
        i += 1;
    }
    proof {
        assert(a@ =~= b@);
    }
    true
}

} // verus!
