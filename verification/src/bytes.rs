//! Byte-level helpers shared by the requirement parser and the wheel
//! installer: slice comparison, decimal rendering, and UTF-8 decoding.
use vstd::prelude::*;

verus! {

use vstd::string::StringSliceAdditionalSpecFns;
use vstd::utf8::valid_utf8;
use vstd::utf8::decode_utf8;
use vstd::utf8::encode_utf8_decode_utf8;

/// The decimal digit character for `d` (`d < 10`).
pub open spec fn digit_char(d: nat) -> char {
    if d == 0 {
        '0'
    } else if d == 1 {
        '1'
    } else if d == 2 {
        '2'
    } else if d == 3 {
        '3'
    } else if d == 4 {
        '4'
    } else if d == 5 {
        '5'
    } else if d == 6 {
        '6'
    } else if d == 7 {
        '7'
    } else if d == 8 {
        '8'
    } else {
        '9'
    }
}

/// Decimal digit characters of `n`, most significant first, no sign and no
/// leading zeros (`0` renders as `"0"`).
pub open spec fn dec_rep(n: nat) -> Seq<char>
    decreases n,
{
    if n < 10 {
        seq![digit_char(n)]
    } else {
        dec_rep(n / 10).push(digit_char(n % 10))
    }
}

/// One decimal digit as a string slice.
fn digit_str(d: usize) -> (r: &'static str)
    requires
        d < 10,
    ensures
        r@ == seq![digit_char(d as nat)],
{
    proof {
        reveal_strlit("0");
        reveal_strlit("1");
        reveal_strlit("2");
        reveal_strlit("3");
        reveal_strlit("4");
        reveal_strlit("5");
        reveal_strlit("6");
        reveal_strlit("7");
        reveal_strlit("8");
        reveal_strlit("9");
    }
    let r = if d == 0 {
        "0"
    } else if d == 1 {
        "1"
    } else if d == 2 {
        "2"
    } else if d == 3 {
        "3"
    } else if d == 4 {
        "4"
    } else if d == 5 {
        "5"
    } else if d == 6 {
        "6"
    } else if d == 7 {
        "7"
    } else if d == 8 {
        "8"
    } else {
        "9"
    };
    proof {
        assert(r@ =~= seq![digit_char(d as nat)]);
    }
    r
}

/// Renders `n` in decimal.
pub fn usize_to_string(n: usize) -> (s: String)
    ensures
        s@ == dec_rep(n as nat),
    decreases n,
{
    if n < 10 {
        let s = digit_str(n).to_owned();
        s
    } else {
        let mut s = usize_to_string(n / 10);
        s.append(digit_str(n % 10));
        proof {
            assert(s@ =~= dec_rep(n as nat));
        }
        s
    }
}

/// Equality of two byte slices.
pub fn bytes_eq(a: &[u8], b: &[u8]) -> (r: bool)
    ensures
        r == (a@ == b@),
{
    if a.len() != b.len() {
        return false;
    }
    let mut i: usize = 0;
    while i < a.len()
        invariant
            i <= a@.len(),
            a@.len() == b@.len(),
            forall|j: int| 0 <= j < i ==> a@[j] == b@[j],
        decreases a@.len() - i,
    {
        if a[i] != b[i] {
            return false;
        }
        i = i + 1;
    }
    proof {
        assert(a@ =~= b@);
    }
    true
}

/// Equality of two string slices, stated over their character sequences.
pub fn str_eq(a: &str, b: &str) -> (r: bool)
    ensures
        r == (a@ == b@),
{
    let r = bytes_eq(a.as_bytes(), b.as_bytes());
    proof {
        if a.spec_bytes() == b.spec_bytes() {
            encode_utf8_decode_utf8(a@);
            encode_utf8_decode_utf8(b@);
            assert(a@ == b@);
        }
    }
    r
}

/// True when `lit` occurs in `s` starting at position `p`.
pub open spec fn starts_with_at(s: Seq<u8>, p: int, lit: Seq<u8>) -> bool {
    p + lit.len() <= s.len() && s.subrange(p, p + lit.len()) == lit
}

/// Executable check for [`starts_with_at`].
pub fn slice_starts_with(s: &[u8], p: usize, lit: &[u8]) -> (r: bool)
    requires
        p <= s@.len(),
    ensures
        r == starts_with_at(s@, p as int, lit@),
{
    if s.len() - p < lit.len() {
        return false;
    }
    let slen: usize = s.len();
    let mut i: usize = 0;
    while i < lit.len()
        invariant
            p + lit@.len() <= s@.len(),
            slen == s@.len(),
            i <= lit@.len(),
            forall|j: int| 0 <= j < i ==> s@[p + j] == lit@[j],
        decreases lit@.len() - i,
    {
        proof {
            assert(p + i < slen);
        }
        let j: usize = p + i;
        if s[j] != lit[i] {
            proof {
                assert(s@.subrange(p as int, p + lit@.len())[i as int] != lit@[i as int]);
            }
            return false;
        }
        i = i + 1;
    }
    proof {
        assert(s@.subrange(p as int, p + lit@.len()) =~= lit@);
    }
    true
}

/// Executable search for [`crate::cursor::find2`]: the first position at or
/// after `from` holding byte `a` or byte `b`, or the slice's length.
pub fn find_in_slice(s: &[u8], from: usize, a: u8, b: u8) -> (r: usize)
    requires
        from <= s@.len(),
    ensures
        r == crate::cursor::find2(s@, from as int, a, b),
        from <= r <= s@.len(),
{
    proof {
        crate::cursor::lemma_find2(s@, from as int, a, b);
    }
    let n = s.len();
    let mut i: usize = from;
    loop
        invariant
            from <= i <= n,
            n == s@.len(),
            crate::cursor::find2(s@, from as int, a, b) == crate::cursor::find2(s@, i as int, a, b),
        ensures
            i == crate::cursor::find2(s@, from as int, a, b),
        decreases n - i,
    {
        if i < n && s[i] != a && s[i] != b {
            i = i + 1;
        } else {
            break;
        }
    }
    i
}

/// The bounds of `s` with surrounding whitespace dropped: `[r.0, r.1)` is
/// the trimmed range.
pub fn trim_range(s: &[u8]) -> (r: (usize, usize))
    ensures
        0 <= r.0 <= r.1 <= s@.len(),
        s@.subrange(r.0 as int, r.1 as int) == crate::bytes::trimmed(s@),
{
    let n = s.len();
    let mut lo: usize = 0;
    loop
        invariant
            lo <= n,
            n == s@.len(),
            crate::cursor::ws_end(s@, 0) == crate::cursor::ws_end(s@, lo as int),
        ensures
            lo == crate::cursor::ws_end(s@, 0),
        decreases n - lo,
    {
        if lo < n && crate::cursor::byte_is_ws(s[lo]) {
            lo = lo + 1;
        } else {
            break;
        }
    }
    let mut hi: usize = n;
    loop
        invariant
            lo <= hi <= n,
            n == s@.len(),
            crate::cursor::trim_ws_end(s@, lo as int, n as int) == crate::cursor::trim_ws_end(
                s@,
                lo as int,
                hi as int,
            ),
        ensures
            hi == crate::cursor::trim_ws_end(s@, lo as int, n as int),
        decreases hi,
    {
        if hi > lo && crate::cursor::byte_is_ws(s[hi - 1]) {
            hi = hi - 1;
        } else {
            break;
        }
    }
    (lo, hi)
}

/// Appends a slice's bytes to a vector.
pub fn push_bytes(dst: &mut Vec<u8>, src: &[u8])
    ensures
        final(dst)@ == old(dst)@ + src@,
{
    let mut i: usize = 0;
    while i < src.len()
        invariant
            i <= src@.len(),
            dst@ == old(dst)@ + src@.subrange(0, i as int),
        decreases src@.len() - i,
    {
        dst.push(src[i]);
        proof {
            assert(dst@ =~= old(dst)@ + src@.subrange(0, i + 1));
        }
        i = i + 1;
    }
    proof {
        assert(src@.subrange(0, src@.len() as int) =~= src@);
    }
}

/// `s` with surrounding whitespace dropped.
pub open spec fn trimmed(s: Seq<u8>) -> Seq<u8> {
    let lo = crate::cursor::ws_end(s, 0);
    let hi = crate::cursor::trim_ws_end(s, lo, s.len() as int);
    s.subrange(lo, hi)
}

/// Bounds of [`trimmed`]'s range.
pub proof fn lemma_trimmed(s: Seq<u8>)
    ensures
        0 <= crate::cursor::ws_end(s, 0) <= crate::cursor::trim_ws_end(
            s,
            crate::cursor::ws_end(s, 0),
            s.len() as int,
        ) <= s.len(),
{
    crate::cursor::lemma_ws_end(s, 0);
    let lo = crate::cursor::ws_end(s, 0);
    crate::cursor::lemma_trim_ws_end(s, lo, s.len() as int);
}

/// Relies on `String::from_utf8_lossy`: a byte sequence that is valid UTF-8
/// decodes to exactly its characters (invalid sequences are replaced, and the
/// result is then left unconstrained here).
#[verifier::external_body]
pub fn bytes_to_string(b: &[u8]) -> (r: String)
    ensures
        valid_utf8(b@) ==> r@ == decode_utf8(b@),
{
    String::from_utf8_lossy(b).into_owned()
}

/// Copies the range `[lo, hi)` out of a byte slice.
pub fn sub_bytes(s: &[u8], lo: usize, hi: usize) -> (r: Vec<u8>)
    requires
        lo <= hi <= s@.len(),
    ensures
        r@ == s@.subrange(lo as int, hi as int),
{
    let mut r: Vec<u8> = Vec::new();
    let mut i: usize = lo;
    while i < hi
        invariant
            lo <= i <= hi <= s@.len(),
            r@ == s@.subrange(lo as int, i as int),
        decreases hi - i,
    {
        r.push(s[i]);
        proof {
            assert(r@ =~= s@.subrange(lo as int, i + 1));
        }
        i = i + 1;
    }
    r
}

/// The decoded string of the byte range `[lo, hi)`: exact when that range is
/// valid UTF-8.
pub fn range_to_string(s: &[u8], lo: usize, hi: usize) -> (r: String)
    requires
        lo <= hi <= s@.len(),
    ensures
        valid_utf8(s@.subrange(lo as int, hi as int)) ==> r@ == decode_utf8(
            s@.subrange(lo as int, hi as int),
        ),
{
    let piece = sub_bytes(s, lo, hi);
    bytes_to_string(piece.as_slice())
}

} // verus!
