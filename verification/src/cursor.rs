//! A position-tracked scanner over a byte buffer. Offsets are byte offsets
//! into the original buffer and are reported verbatim in diagnostics; every
//! offset at which the cursor stops scanning a token lies on an ASCII byte or
//! at the end of the buffer, so it never splits a multi-byte character of
//! UTF-8 input.
use vstd::prelude::*;

verus! {

/// The ASCII whitespace bytes that the requirement grammar skips.
pub open spec fn is_ws(b: u8) -> bool {
    b == 32 || b == 9 || b == 10 || b == 11 || b == 12 || b == 13
}

/// Executable check for [`is_ws`].
pub fn byte_is_ws(b: u8) -> (r: bool)
    ensures
        r == is_ws(b),
{
    b == 32 || b == 9 || b == 10 || b == 11 || b == 12 || b == 13
}

/// An ASCII letter or digit.
pub open spec fn is_alnum(b: u8) -> bool {
    (48 <= b <= 57) || (65 <= b <= 90) || (97 <= b <= 122)
}

/// The first position at or after `i` that does not hold whitespace
/// (`s.len()` if none).
pub open spec fn ws_end(s: Seq<u8>, i: int) -> int
    decreases s.len() - i,
{
    if 0 <= i < s.len() && is_ws(s[i]) {
        ws_end(s, i + 1)
    } else {
        i
    }
}

/// Bounds of [`ws_end`].
pub proof fn lemma_ws_end(s: Seq<u8>, i: int)
    requires
        0 <= i <= s.len(),
    ensures
        i <= ws_end(s, i) <= s.len(),
    decreases s.len() - i,
{
    if 0 <= i < s.len() && is_ws(s[i]) {
        lemma_ws_end(s, i + 1);
    }
}

/// Where a run of in-line whitespace ends: whitespace other than a line
/// break continues the run, and so does a backslash immediately followed by
/// a line break (an escaped continuation); a bare line break stops it.
pub open spec fn wrap_ws_end(s: Seq<u8>, i: int) -> int
    decreases s.len() - i,
{
    if 0 <= i < s.len() && is_ws(s[i]) && s[i] != 10 {
        wrap_ws_end(s, i + 1)
    } else if 0 <= i && i + 2 <= s.len() && s[i] == 92 && s[i + 1] == 10 {
        wrap_ws_end(s, i + 2)
    } else {
        i
    }
}

/// Bounds of [`wrap_ws_end`].
pub proof fn lemma_wrap_ws_end(s: Seq<u8>, i: int)
    requires
        0 <= i <= s.len(),
    ensures
        i <= wrap_ws_end(s, i) <= s.len(),
    decreases s.len() - i,
{
    if 0 <= i < s.len() && is_ws(s[i]) && s[i] != 10 {
        lemma_wrap_ws_end(s, i + 1);
    } else if 0 <= i && i + 2 <= s.len() && s[i] == 92 && s[i + 1] == 10 {
        lemma_wrap_ws_end(s, i + 2);
    }
}

/// The first position at or after `i` holding byte `a` or byte `b`
/// (`s.len()` if none).
pub open spec fn find2(s: Seq<u8>, i: int, a: u8, b: u8) -> int
    decreases s.len() - i,
{
    if 0 <= i < s.len() {
        if s[i] == a || s[i] == b {
            i
        } else {
            find2(s, i + 1, a, b)
        }
    } else {
        s.len() as int
    }
}

/// Bounds of [`find2`].
pub proof fn lemma_find2(s: Seq<u8>, i: int, a: u8, b: u8)
    requires
        0 <= i <= s.len(),
    ensures
        i <= find2(s, i, a, b) <= s.len(),
    decreases s.len() - i,
{
    if 0 <= i < s.len() && !(s[i] == a || s[i] == b) {
        lemma_find2(s, i + 1, a, b);
    }
}

/// The first position at or after `i` holding whitespace (`s.len()` if none).
pub open spec fn non_ws_end(s: Seq<u8>, i: int) -> int
    decreases s.len() - i,
{
    if 0 <= i < s.len() && !is_ws(s[i]) {
        non_ws_end(s, i + 1)
    } else if 0 <= i < s.len() {
        i
    } else {
        s.len() as int
    }
}

/// Bounds of [`non_ws_end`].
pub proof fn lemma_non_ws_end(s: Seq<u8>, i: int)
    requires
        0 <= i <= s.len(),
    ensures
        i <= non_ws_end(s, i) <= s.len(),
    decreases s.len() - i,
{
    if 0 <= i < s.len() && !is_ws(s[i]) {
        lemma_non_ws_end(s, i + 1);
    }
}

/// The end of `[lo, hi)` after trailing whitespace is dropped.
pub open spec fn trim_ws_end(s: Seq<u8>, lo: int, hi: int) -> int
    decreases hi - lo,
{
    if lo < hi <= s.len() && is_ws(s[hi - 1]) {
        trim_ws_end(s, lo, hi - 1)
    } else {
        hi
    }
}

/// Bounds of [`trim_ws_end`].
pub proof fn lemma_trim_ws_end(s: Seq<u8>, lo: int, hi: int)
    requires
        0 <= lo <= hi <= s.len(),
    ensures
        lo <= trim_ws_end(s, lo, hi) <= hi,
    decreases hi - lo,
{
    if lo < hi <= s.len() && is_ws(s[hi - 1]) {
        lemma_trim_ws_end(s, lo, hi - 1);
    }
}

/// Position-tracked scanner over a byte buffer, single owner, byte-offset
/// based.
pub struct Cursor<'a> {
    buf: &'a [u8],
    pos: usize,
}

impl<'a> Cursor<'a> {
    /// The scanned buffer.
    pub closed spec fn text(&self) -> Seq<u8> {
        self.buf@
    }

    /// The current byte offset.
    pub closed spec fn position(&self) -> int {
        self.pos as int
    }

    /// The offset never runs past the end of the buffer.
    pub open spec fn wf(&self) -> bool {
        0 <= self.position() <= self.text().len()
    }

    /// A cursor at the start of `buf`.
    pub fn new(buf: &'a [u8]) -> (r: Cursor<'a>)
        ensures
            r.wf(),
            r.text() == buf@,
            r.position() == 0,
    {
        Cursor { buf, pos: 0 }
    }

    /// True once the whole buffer is consumed.
    pub fn done(&self) -> (r: bool)
        requires
            self.wf(),
        ensures
            r == (self.position() == self.text().len()),
    {
        self.pos == self.buf.len()
    }

    /// The current offset, for diagnostics.
    pub fn cursor(&self) -> (r: usize)
        requires
            self.wf(),
        ensures
            r == self.position(),
    {
        self.pos
    }

    /// Lookahead of one byte.
    pub fn peek(&self) -> (r: Option<u8>)
        requires
            self.wf(),
        ensures
            self.position() < self.text().len() ==> r == Some(self.text()[self.position()]),
            self.position() == self.text().len() ==> r is None,
    {
        if self.pos < self.buf.len() {
            Some(self.buf[self.pos])
        } else {
            None
        }
    }

    /// Consumes one byte.
    pub fn bump(&mut self)
        requires
            old(self).wf(),
            old(self).position() < old(self).text().len(),
        ensures
            final(self).wf(),
            final(self).text() == old(self).text(),
            final(self).position() == old(self).position() + 1,
    {
        let n: usize = self.buf.len();
        proof {
            assert(self.pos < n);
        }
        self.pos = self.pos + 1;
    }

    /// Consumes the byte `b` if it is next; reports whether it did.
    pub fn eat_if_byte(&mut self, b: u8) -> (r: bool)
        requires
            old(self).wf(),
        ensures
            final(self).wf(),
            final(self).text() == old(self).text(),
            r == (old(self).position() < old(self).text().len() && old(self).text()[old(
                self,
            ).position()] == b),
            final(self).position() == if r {
                old(self).position() + 1
            } else {
                old(self).position()
            },
    {
        if self.pos < self.buf.len() && self.buf[self.pos] == b {
            self.pos = self.pos + 1;
            true
        } else {
            false
        }
    }

    /// Consumes `lit` if the buffer continues with it; reports whether it did.
    pub fn eat_lit(&mut self, lit: &[u8]) -> (r: bool)
        requires
            old(self).wf(),
        ensures
            final(self).wf(),
            final(self).text() == old(self).text(),
            r == crate::bytes::starts_with_at(old(self).text(), old(self).position(), lit@),
            final(self).position() == if r {
                old(self).position() + lit@.len()
            } else {
                old(self).position()
            },
    {
        let n: usize = self.buf.len();
        if crate::bytes::slice_starts_with(self.buf, self.pos, lit) {
            let l: usize = lit.len();
            proof {
                assert(self.pos + l <= n);
            }
            self.pos = self.pos + l;
            true
        } else {
            false
        }
    }

    /// True when the buffer continues with `lit`; consumes nothing.
    pub fn at_lit(&self, lit: &[u8]) -> (r: bool)
        requires
            self.wf(),
        ensures
            r == crate::bytes::starts_with_at(self.text(), self.position(), lit@),
    {
        crate::bytes::slice_starts_with(self.buf, self.pos, lit)
    }

    /// True when the next byte is an ASCII letter or digit.
    pub fn at_alnum(&self) -> (r: bool)
        requires
            self.wf(),
        ensures
            r == (self.position() < self.text().len() && is_alnum(
                self.text()[self.position()],
            )),
    {
        if self.pos < self.buf.len() {
            let b = self.buf[self.pos];
            (48 <= b && b <= 57) || (65 <= b && b <= 90) || (97 <= b && b <= 122)
        } else {
            false
        }
    }

    /// Consumes plain whitespace.
    pub fn eat_whitespace(&mut self)
        requires
            old(self).wf(),
        ensures
            final(self).wf(),
            final(self).text() == old(self).text(),
            final(self).position() == ws_end(old(self).text(), old(self).position()),
    {
        loop
            invariant
                self.wf(),
                self.text() == old(self).text(),
                ws_end(old(self).text(), old(self).position()) == ws_end(
                    self.text(),
                    self.position(),
                ),
            ensures
                self.position() == ws_end(old(self).text(), old(self).position()),
            decreases self.text().len() - self.position(),
        {
            if self.pos < self.buf.len() {
                let b = self.buf[self.pos];
                if b == 32 || b == 9 || b == 10 || b == 11 || b == 12 || b == 13 {
                    self.pos = self.pos + 1;
                } else {
                    break;
                }
            } else {
                break;
            }
        }
    }

    /// Consumes in-line whitespace: whitespace other than a line break, and
    /// backslash-newline continuations; stops at a bare line break.
    pub fn eat_wrappable_whitespace(&mut self)
        requires
            old(self).wf(),
        ensures
            final(self).wf(),
            final(self).text() == old(self).text(),
            final(self).position() == wrap_ws_end(old(self).text(), old(self).position()),
    {
        loop
            invariant
                self.wf(),
                self.text() == old(self).text(),
                wrap_ws_end(old(self).text(), old(self).position()) == wrap_ws_end(
                    self.text(),
                    self.position(),
                ),
            ensures
                self.position() == wrap_ws_end(old(self).text(), old(self).position()),
            decreases self.text().len() - self.position(),
        {
            let n: usize = self.buf.len();
            if self.pos < n {
                let b = self.buf[self.pos];
                if (b == 32 || b == 9 || b == 11 || b == 12 || b == 13) {
                    self.pos = self.pos + 1;
                } else if b == 92 && n - self.pos >= 2 && self.buf[self.pos + 1] == 10 {
                    self.pos = self.pos + 2;
                } else {
                    break;
                }
            } else {
                break;
            }
        }
    }

    /// Consumes bytes until byte `a` or byte `b` is next, or the buffer ends.
    pub fn eat_until2(&mut self, a: u8, b: u8)
        requires
            old(self).wf(),
        ensures
            final(self).wf(),
            final(self).text() == old(self).text(),
            final(self).position() == find2(old(self).text(), old(self).position(), a, b),
    {
        while self.pos < self.buf.len() && self.buf[self.pos] != a && self.buf[self.pos] != b
            invariant
                self.wf(),
                self.text() == old(self).text(),
                find2(old(self).text(), old(self).position(), a, b) == find2(
                    self.text(),
                    self.position(),
                    a,
                    b,
                ),
            decreases self.text().len() - self.position(),
        {
            self.pos = self.pos + 1;
        }
    }

    /// Consumes bytes until whitespace is next or the buffer ends.
    pub fn eat_non_ws(&mut self)
        requires
            old(self).wf(),
        ensures
            final(self).wf(),
            final(self).text() == old(self).text(),
            final(self).position() == non_ws_end(old(self).text(), old(self).position()),
    {
        loop
            invariant
                self.wf(),
                self.text() == old(self).text(),
                non_ws_end(old(self).text(), old(self).position()) == non_ws_end(
                    self.text(),
                    self.position(),
                ),
            ensures
                self.position() == non_ws_end(old(self).text(), old(self).position()),
            decreases self.text().len() - self.position(),
        {
            if self.pos < self.buf.len() {
                let b = self.buf[self.pos];
                if !(b == 32 || b == 9 || b == 10 || b == 11 || b == 12 || b == 13) {
                    self.pos = self.pos + 1;
                } else {
                    break;
                }
            } else {
                break;
            }
        }
    }
}

} // verus!
