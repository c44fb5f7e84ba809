//! Rewriting the CDTEXT size field inside the descriptor text.
//!
//! The field is a run of exactly six ASCII decimal digits followed by at
//! least one ASCII whitespace byte and the literal token "CDTEXT". Every
//! non-overlapping occurrence, scanning left to right, has its digit run
//! replaced by the new size, zero-padded on the left to six digits; the
//! whitespace and the token are kept. A size of a million or more does not
//! fit six digits; its full decimal form is emitted, widening the field.

use vstd::prelude::*;

use crate::bytes::is_sub_at;
use crate::bytes::match_at;
use crate::bytes::append_range;
use crate::bytes::bytes_equal;

verus! {

/// An ASCII decimal digit.
pub open spec fn is_digit(b: u8) -> bool {
    0x30 <= b <= 0x39
}

/// An ASCII whitespace byte: space, tab, line feed, vertical tab, form
/// feed or carriage return.
pub open spec fn is_space(b: u8) -> bool {
    b == 0x20 || b == 0x09 || b == 0x0a || b == 0x0b || b == 0x0c || b == 0x0d
}

/// The ASCII bytes of "CDTEXT".
pub open spec fn cdtext_bytes() -> Seq<u8> {
    seq![0x43u8, 0x44u8, 0x54u8, 0x45u8, 0x58u8, 0x54u8]
}

/// The number of consecutive whitespace bytes starting at index `i`.
pub open spec fn ws_run(s: Seq<u8>, i: int) -> int
    decreases s.len() - i,
{
    if 0 <= i < s.len() && is_space(s[i]) {
        1 + ws_run(s, i + 1)
    } else {
        0
    }
}

/// A size field occurrence starts at index `i`: six digits, then at least
/// one whitespace byte, then the token "CDTEXT" right after the whitespace
/// run.
pub open spec fn size_field_at(s: Seq<u8>, i: int) -> bool {
    &&& 0 <= i
    &&& i + 6 <= s.len()
    &&& forall|t: int| i <= t < i + 6 ==> is_digit(s[t])
    &&& ws_run(s, i + 6) >= 1
    &&& is_sub_at(s, i + 6 + ws_run(s, i + 6), cdtext_bytes())
}

/// One past the last byte of the occurrence at `i`: the digits, the
/// whitespace run and the token.
pub open spec fn field_end(s: Seq<u8>, i: int) -> int {
    i + 12 + ws_run(s, i + 6)
}

/// The decimal digits of `n`, most significant first, no leading zeros.
pub open spec fn dec_digits(n: nat) -> Seq<u8>
    decreases n,
{
    if n < 10 {
        seq![(0x30 + n) as u8]
    } else {
        dec_digits(n / 10) + seq![(0x30 + n % 10) as u8]
    }
}

/// The decimal digits of `n`, left-padded with ASCII zeros to six bytes.
/// Numbers of more than six digits keep their full decimal form.
pub open spec fn padded6(n: nat) -> Seq<u8> {
    if dec_digits(n).len() >= 6 {
        dec_digits(n)
    } else {
        Seq::new((6 - dec_digits(n).len()) as nat, |k: int| 0x30u8) + dec_digits(n)
    }
}

/// The suffix of `s` from index `i` with every size field occurrence
/// replaced: at an occurrence the digit run becomes `padded6(size)` and the
/// scan resumes past the token; elsewhere the byte is copied.
pub open spec fn subst_from(s: Seq<u8>, i: int, size: nat) -> Seq<u8>
    decreases s.len() - i,
{
    if !(0 <= i < s.len()) {
        Seq::<u8>::empty()
    } else if size_field_at(s, i) {
        padded6(size) + s.subrange(i + 6, field_end(s, i)) + subst_from(s, field_end(s, i), size)
    } else {
        seq![s[i]] + subst_from(s, i + 1, size)
    }
}

/// `s` with every size field occurrence rewritten to `size`.
pub open spec fn substituted(s: Seq<u8>, size: nat) -> Seq<u8> {
    subst_from(s, 0, size)
}

/// Is `b` an ASCII whitespace byte?
fn is_space_byte(b: u8) -> (r: bool)
    ensures
        r == is_space(b),
{
    b == 0x20 || b == 0x09 || b == 0x0a || b == 0x0b || b == 0x0c || b == 0x0d
}

/// Is `b` an ASCII decimal digit?
fn is_digit_byte(b: u8) -> (r: bool)
    ensures
        r == is_digit(b),
{
    0x30 <= b && b <= 0x39
}

/// The length of the whitespace run starting at `i`.
fn ws_run_len(s: &Vec<u8>, i: usize) -> (r: usize)
    requires
        i <= s@.len(),
    ensures
        r as int == ws_run(s@, i as int),
        i + r <= s@.len(),
{
    let len = s.len();
    let mut j = i;
    while j < len && is_space_byte(s[j])
        invariant
            i <= j <= len,
            len == s@.len(),
            ws_run(s@, i as int) == j - i + ws_run(s@, j as int),
        decreases len - j,
    {
        j += 1;
    }
    j - i
}

/// The ASCII bytes of "CDTEXT" as a vector.
pub(crate) fn cdtext_needle() -> (r: Vec<u8>)
    ensures
        r@ == cdtext_bytes(),
{
    let mut v: Vec<u8> = Vec::new();
    v.push(0x43); // C
    v.push(0x44); // D
    v.push(0x54); // T
    v.push(0x45); // E
    v.push(0x58); // X
    v.push(0x54); // T
    proof {
        assert(v@ =~= cdtext_bytes());
    }
    v
}

/// Checks for a size field occurrence at `i`; returns its end on a match.
fn check_size_field(s: &Vec<u8>, i: usize) -> (r: Option<usize>)
    requires
        i < s@.len(),
    ensures
        match r {
            Some(e) => size_field_at(s@, i as int) && e as int == field_end(s@, i as int) && i < e
                <= s@.len(),
            None => !size_field_at(s@, i as int),
        },
{
    let len = s.len();
    if len - i < 6 {
        return None;
    }
    let mut t: usize = 0;
    while t < 6
        invariant
            i + 6 <= len,
            len == s@.len(),
            t <= 6,
            forall|u: int| i <= u < i + t ==> is_digit(s@[u]),
        decreases 6 - t,
    {
        if !is_digit_byte(s[i + t]) {
            return None;
        }
        t += 1;
    }
    let w = ws_run_len(s, i + 6);
    if w == 0 {
        return None;
    }
    let p = i + 6 + w;
    proof {
        assert(cdtext_bytes().len() == 6);
    }
    if len - p < 6 {
        return None;
    }
    let token = cdtext_needle();
    if match_at(s, p, &token) {
        Some(p + 6)
    } else {
        None
    }
}

/// Appends the decimal form of `n`, zero-padded to six bytes, to `out`.
fn push_padded_decimal(out: &mut Vec<u8>, n: u64)
    ensures
        final(out)@ == old(out)@ + padded6(n as nat),
{
    let mut rev: Vec<u8> = Vec::new();
    let mut m = n;
    loop
        invariant_except_break
            dec_digits(n as nat) == dec_digits(m as nat) + rev@.reverse(),
        ensures
            dec_digits(n as nat) == rev@.reverse(),
            rev@.len() >= 1,
        decreases m,
    {
        let d: u8 = (m % 10) as u8;
        let ghost prev = rev@;
        rev.push(0x30 + d);
        proof {
            assert(rev@.reverse() =~= seq![(0x30 + d) as u8] + prev.reverse());
            if m < 10 {
                assert(dec_digits(m as nat) == seq![(0x30 + m as nat) as u8]);
                assert(dec_digits(n as nat) =~= rev@.reverse());
            } else {
                assert(dec_digits(m as nat) == dec_digits(m as nat / 10) + seq![
                    (0x30 + m as nat % 10) as u8,
                ]);
                assert(dec_digits((m / 10) as nat) + rev@.reverse() =~= dec_digits(m as nat)
                    + prev.reverse());
            }
        }
        m = m / 10;
        if m == 0 {
            break;
        }
    }
    let dlen = rev.len();
    let ghost base = out@;
    let mut z: usize = 0;
    while dlen < 6 && z < 6 - dlen
        invariant
            dlen == rev@.len(),
            dlen < 6 ==> z <= 6 - dlen,
            dlen >= 6 ==> z == 0,
            out@ == base + Seq::new(z as nat, |k: int| 0x30u8),
        decreases 6 - dlen - z,
    {
        out.push(0x30);
        proof {
            assert(out@ =~= base + Seq::new((z + 1) as nat, |k: int| 0x30u8));
        }
        z += 1;
    }
    proof {
        assert(out@ == base + padded6(n as nat).subrange(
            0,
            padded6(n as nat).len() - dec_digits(n as nat).len(),
        )) by {
            if dec_digits(n as nat).len() >= 6 {
                assert(Seq::new(0nat, |k: int| 0x30u8) =~= Seq::<u8>::empty());
                assert(padded6(n as nat).subrange(
                    0,
                    padded6(n as nat).len() - dec_digits(n as nat).len(),
                ) =~= Seq::<u8>::empty());
            } else {
                assert(padded6(n as nat).subrange(
                    0,
                    padded6(n as nat).len() - dec_digits(n as nat).len(),
                ) =~= Seq::new((6 - dec_digits(n as nat).len()) as nat, |k: int| 0x30u8));
            }
        }
    }
    let ghost mid = out@;
    let ghost digits = dec_digits(n as nat);
    while rev.len() > 0
        invariant
            digits == dec_digits(n as nat),
            out@ + rev@.reverse() == mid + digits,
        decreases rev@.len(),
    {
        let ghost prev = rev@;
        let b = rev.pop().unwrap();
        out.push(b);
        proof {
            assert(prev.reverse() =~= seq![b] + rev@.reverse());
            assert(out@ + rev@.reverse() =~= mid + digits);
        }
    }
    proof {
        assert(rev@.reverse() =~= Seq::<u8>::empty());
        assert(out@ =~= mid + digits);
        assert(out@ =~= base + padded6(n as nat));
    }
}

/// Rewrites every size field occurrence in `text` to carry `new_size`.
///
/// Returns the rewritten bytes exactly when they differ from `text`; when
/// the substitution leaves the text unchanged (in particular when no
/// occurrence exists) the result is `None` and nothing is to be written.
pub fn update_size_field(text: &Vec<u8>, new_size: u64) -> (r: Option<Vec<u8>>)
    ensures
        match r {
            Some(v) => v@ == substituted(text@, new_size as nat) && v@ != text@,
            None => substituted(text@, new_size as nat) == text@,
        },
{
    let len = text.len();
    let mut out: Vec<u8> = Vec::new();
    let mut i: usize = 0;
    proof {
        assert(Seq::<u8>::empty() + subst_from(text@, 0, new_size as nat) =~= subst_from(
            text@,
            0,
            new_size as nat,
        ));
    }
    while i < len
        invariant
            i <= len,
            len == text@.len(),
            substituted(text@, new_size as nat) == out@ + subst_from(
                text@,
                i as int,
                new_size as nat,
            ),
        decreases len - i,
    {
        match check_size_field(text, i) {
            Some(e) => {
                let ghost before = out@;
                push_padded_decimal(&mut out, new_size);
                append_range(&mut out, text, i + 6, e);
                proof {
                    assert(out@ =~= before + (padded6(new_size as nat) + text@.subrange(
                        i + 6,
                        e as int,
                    )));
                    assert(before + (padded6(new_size as nat) + text@.subrange(i + 6, e as int))
                        + subst_from(text@, e as int, new_size as nat) =~= before + subst_from(
                        text@,
                        i as int,
                        new_size as nat,
                    ));
                }
                i = e;
            },
            None => {
                let ghost before = out@;
                out.push(text[i]);
                proof {
                    assert(out@ + subst_from(text@, i + 1, new_size as nat) =~= before
                        + subst_from(text@, i as int, new_size as nat));
                }
                i += 1;
            },
        }
    }
    proof {
        assert(subst_from(text@, len as int, new_size as nat) =~= Seq::<u8>::empty());
        assert(out@ + Seq::<u8>::empty() =~= out@);
    }
    if bytes_equal(&out, text) {
        None
    } else {
        Some(out)
    }
}

} // verus!
