//! Parses a subset of the requirements-file syntax into a normalized set of
//! requirements and constraints.
//!
//! Grammar, line oriented, one statement at a time; after leading whitespace
//! a statement is one of:
//!  * `#...` — comment, rest of the line discarded;
//!  * `-r <path>` — include another requirements file, resolved relative to
//!    the including file's directory;
//!  * `-c <path>` — include a constraints file the same way; every
//!    requirement found in it is demoted to a bare constraint;
//!  * `-e <spec>` — an editable requirement;
//!  * a statement starting with an ASCII letter or digit — a plain
//!    requirement.
//!
//! A requirement body runs until end of line, end of file, or whitespace
//! immediately followed by a token starting with `--`; a backslash
//! immediately followed by a line break is an escaped continuation and counts
//! as ordinary whitespace. After the body, zero or more `--hash=<value>` /
//! `--hash <value>` tokens accumulate in encounter order.
//!
//! Includes are followed recursively, depth first, to a documented maximum
//! depth of [`MAX_INCLUDE_DEPTH`] (the grammar itself has no cycle
//! detection). The first structural or specifier error aborts the parse of
//! the offending file and propagates through every including file.
use vstd::prelude::*;

verus! {

use vstd::string::StringSliceAdditionalSpecFns;
use vstd::utf8::valid_utf8;
use vstd::utf8::decode_utf8;
use vstd::utf8::encode_utf8;
use crate::bytes::starts_with_at;
use crate::bytes::dec_rep;
use crate::bytes::usize_to_string;
use crate::bytes::range_to_string;
use crate::bytes::sub_bytes;
use crate::cursor::Cursor;
use crate::cursor::is_ws;
use crate::cursor::is_alnum;
use crate::cursor::ws_end;
use crate::cursor::wrap_ws_end;
use crate::cursor::find2;
use crate::cursor::non_ws_end;
use crate::cursor::trim_ws_end;
use crate::cursor::lemma_ws_end;
use crate::cursor::lemma_wrap_ws_end;
use crate::cursor::lemma_find2;
use crate::cursor::lemma_non_ws_end;
use crate::cursor::lemma_trim_ws_end;

/// Most deeply nested include chain that is followed before the parse fails
/// with a positioned error; bounds the recursion on self- or mutually
/// including files.
pub const MAX_INCLUDE_DEPTH: u32 = 32;

/// A dependency specifier: name, extras, and version constraint or URL, as
/// the delegated specifier parser reports them.
#[derive(Debug, Clone, PartialEq, Eq)]
pub struct Requirement {
    /// The distribution name.
    pub name: String,
    /// The requested extras, in order.
    pub extras: Vec<String>,
    /// The version constraint, or the URL to install from.
    pub version_or_url: Option<VersionOrUrl>,
}

/// A rendered version-specifier set, or a rendered URL.
#[derive(Debug, Clone, PartialEq, Eq)]
pub enum VersionOrUrl {
    /// A version specifier set such as `==1.26`.
    VersionSpecifier(String),
    /// An installable URL.
    Url(String),
}

/// A requirement with the metadata its statement carried.
#[derive(Debug, Clone, PartialEq, Eq)]
pub struct RequirementEntry {
    /// The parsed dependency specifier.
    pub requirement: Requirement,
    /// The `--hash` values, in encounter order.
    pub hashes: Vec<String>,
    /// Whether the statement was an editable (`-e`) requirement.
    pub editable: bool,
}

/// Parsed and flattened requirements file: requirements with their hashes,
/// and bare constraints. A constraint carries no hashes and no editable flag
/// by construction.
#[derive(Debug, Clone, PartialEq, Eq)]
pub struct RequirementsTxt {
    /// The requirements, with hashes and editable flags, in encounter order.
    pub requirements: Vec<RequirementEntry>,
    /// Constraints included with `-c`, in encounter order.
    pub constraints: Vec<Requirement>,
}

/// Error parsing a requirements file; every variant carries the file and a
/// byte offset into it.
#[derive(Debug)]
pub enum RequirementsTxtError {
    /// The file could not be read; the rendered cause chain, outermost first.
    IO { chain: Vec<String> },
    /// A structural grammar violation at `location`.
    Parser { message: String, file: String, location: usize },
    /// The delegated specifier parser failed on the substring at byte range
    /// `start..end`; `message` is its rendered error.
    Pep508 { message: String, file: String, start: usize, end: usize },
    /// A recursively included file failed to parse; `location` is the byte
    /// offset of the include directive's value.
    Subfile { file: String, location: usize, source: Box<RequirementsTxtError> },
}

/// The rendered messages of `e` and its causes, outermost first, as
/// [`RequirementsTxtError::chain`] prints them.
pub open spec fn chain_model(e: RequirementsTxtError) -> Seq<Seq<char>>
    decreases e,
{
    match e {
        RequirementsTxtError::IO { chain } => chain.deep_view(),
        RequirementsTxtError::Parser { message, file, location } => seq![
            message@ + " in "@ + file@ + " position "@ + dec_rep(location as nat),
        ],
        RequirementsTxtError::Pep508 { message, file, start, end } => seq![
            "Couldn't parse requirement in "@ + file@ + " position "@ + dec_rep(start as nat)
                + " to "@ + dec_rep(end as nat),
            message@,
        ],
        RequirementsTxtError::Subfile { file, location, source } => seq![
            "Failed to parse "@ + file@ + " position "@ + dec_rep(location as nat)
                + " due to an error in an included file"@,
        ] + chain_model(*source),
    }
}

impl RequirementsTxtError {
    /// The rendered messages of this error and its causes, outermost first:
    /// enough context (file, offset, underlying cause chain) to localize the
    /// fault.
    pub fn chain(&self) -> (r: Vec<String>)
        ensures
            r.deep_view() == chain_model(*self),
        decreases self,
    {
        match self {
            RequirementsTxtError::IO { chain } => {
                let mut v: Vec<String> = Vec::new();
                let mut i: usize = 0;
                while i < chain.len()
                    invariant
                        i <= chain@.len(),
                        v@.len() == i,
                        forall|j: int| 0 <= j < i ==> v@[j] == chain@[j],
                    decreases chain@.len() - i,
                {
                    v.push(chain[i].clone());
                    i = i + 1;
                }
                proof {
                    assert(v.deep_view() =~~= chain_model(*self));
                }
                v
            },
            RequirementsTxtError::Parser { message, file, location } => {
                let mut m = message.clone();
                m.append(" in ");
                m.append(file.as_str());
                m.append(" position ");
                let loc_str = usize_to_string(*location);
                m.append(loc_str.as_str());
                let mut v: Vec<String> = Vec::new();
                v.push(m);
                proof {
                    assert(v.deep_view() =~~= chain_model(*self));
                }
                v
            },
            RequirementsTxtError::Pep508 { message, file, start, end } => {
                let mut m = "Couldn't parse requirement in ".to_owned();
                m.append(file.as_str());
                m.append(" position ");
                let start_str = usize_to_string(*start);
                m.append(start_str.as_str());
                m.append(" to ");
                let end_str = usize_to_string(*end);
                m.append(end_str.as_str());
                let mut v: Vec<String> = Vec::new();
                v.push(m);
                v.push(message.clone());
                proof {
                    assert(v.deep_view() =~~= chain_model(*self));
                }
                v
            },
            RequirementsTxtError::Subfile { file, location, source } => {
                let mut m = "Failed to parse ".to_owned();
                m.append(file.as_str());
                m.append(" position ");
                let loc_str = usize_to_string(*location);
                m.append(loc_str.as_str());
                m.append(" due to an error in an included file");
                let mut v: Vec<String> = Vec::new();
                v.push(m);
                let mut rest = source.chain();
                let ghost rest_g = rest@;
                v.append(&mut rest);
                proof {
                    assert forall|j: int| 0 <= j < v.deep_view().len() implies v.deep_view()[j]
                        == chain_model(*self)[j] by {
                        if j > 0 {
                            assert(v@[j] == rest_g[j - 1]);
                        }
                    }
                    assert(v.deep_view() =~~= chain_model(*self));
                }
                v
            },
        }
    }
}

/// The two bytes `${` opening an environment-variable reference.
pub open spec fn env_ref_marker() -> Seq<u8> {
    seq![36u8, 123u8]
}

/// The bytes hold a `${` sequence somewhere: the delegated specifier parser
/// would expand such a reference from the process environment, so the
/// library rejects it before the parser ever sees it.
pub open spec fn contains_env_ref(s: Seq<u8>) -> bool {
    exists|i: int| 0 <= i && starts_with_at(s, i, env_ref_marker())
}

/// Executable check for [`contains_env_ref`].
fn find_env_ref(s: &[u8]) -> (r: bool)
    ensures
        r == contains_env_ref(s@),
{
    let n = s.len();
    let mut i: usize = 0;
    loop
        invariant
            i <= n,
            n == s@.len(),
            forall|j: int| 0 <= j < i ==> !(#[trigger] s@[j] == 36 && j + 1 < s@.len() && s@[j
                + 1] == 123),
        ensures
            i + 2 > n,
        decreases n - i,
    {
        if i >= n {
            break;
        }
        if n - i < 2 {
            break;
        }
        if s[i] == 36 && s[i + 1] == 123 {
            proof {
                assert(s@.subrange(i as int, i + 2) =~= env_ref_marker());
                assert(starts_with_at(s@, i as int, env_ref_marker()));
            }
            return true;
        }
        i = i + 1;
    }
    proof {
        if contains_env_ref(s@) {
            let k = choose|k: int| 0 <= k && starts_with_at(s@, k, env_ref_marker());
            assert(s@.subrange(k, k + 2)[0] == s@[k]);
            assert(s@.subrange(k, k + 2)[1] == s@[k + 1]);
            assert(s@[k] == 36 && s@[k + 1] == 123);
            assert(false);
        }
    }
    false
}

/// What the delegated specifier parser returns on bytes free of `${`
/// references: the parsed requirement, or nothing when it rejects them. On
/// such bytes the result depends on the bytes alone.
pub uninterp spec fn pep508_of(s: Seq<u8>) -> Option<Requirement>;

/// Relies on pep508_rs::Requirement::from_str: on input without a `${`
/// sequence, parsing depends on the input bytes alone; on failure the error
/// is the parser's rendered message, and input that is not valid UTF-8 is
/// rejected. Input holding `${` is excluded by precondition: the parser
/// expands such references from the process environment (so the result
/// would not be a function of the bytes), and an unset `PROJECT_ROOT`
/// reference panics inside it.
#[verifier::external_body]
fn parse_pep508(input: &[u8]) -> (r: Result<Requirement, String>)
    requires
        !contains_env_ref(input@),
    ensures
        r matches Ok(req) ==> pep508_of(input@) == Some(req),
        r is Err <==> pep508_of(input@) is None,
{
    let text = core::str::from_utf8(input).map_err(|e| e.to_string())?;
    let req = <pep508_rs::Requirement as core::str::FromStr>::from_str(text).map_err(
        |e| e.to_string(),
    )?;
    let version_or_url = req.version_or_url.map(|v| match v {
        pep508_rs::VersionOrUrl::VersionSpecifier(s) => VersionOrUrl::VersionSpecifier(s.to_string()),
        pep508_rs::VersionOrUrl::Url(u) => VersionOrUrl::Url(u.to_string()),
    });
    let extras = req.extras.iter().map(|e| e.to_string()).collect();
    Ok(Requirement { name: req.name.to_string(), extras, version_or_url })
}

/// Where a requirement body starting at `p` ends: `end` is one past its last
/// byte, `next` the position scanning continues at, and `has_hashes` whether
/// a `--` token follows on the same (possibly continued) line.
pub ghost struct ReqScan {
    /// One past the body's last byte.
    pub end: int,
    /// Where scanning continues.
    pub next: int,
    /// Whether a `--` token follows the body.
    pub has_hashes: bool,
}

/// The two bytes `--`.
pub open spec fn dashdash() -> Seq<u8> {
    seq![45u8, 45u8]
}

/// The six bytes `--hash`.
pub open spec fn hash_kw() -> Seq<u8> {
    seq![45u8, 45u8, 104u8, 97u8, 115u8, 104u8]
}

/// Scans a requirement body from `p`: it ends at end of line, end of file,
/// or in-line whitespace immediately followed by `--`; in the whitespace
/// cases the body ends where the whitespace run began.
pub open spec fn req_scan(s: Seq<u8>, p: int) -> ReqScan
    decreases s.len() - p,
    via req_scan_decreases
{
    if !(0 <= p < s.len()) {
        ReqScan { end: p, next: p, has_hashes: false }
    } else if s[p] == 10 {
        ReqScan { end: p, next: p + 1, has_hashes: false }
    } else {
        let w = wrap_ws_end(s, p);
        if w == p {
            req_scan(s, p + 1)
        } else if starts_with_at(s, w, dashdash()) {
            ReqScan { end: p, next: w, has_hashes: true }
        } else if w >= s.len() {
            ReqScan { end: p, next: w, has_hashes: false }
        } else if s[w] == 10 {
            ReqScan { end: p, next: w + 1, has_hashes: false }
        } else {
            req_scan(s, w)
        }
    }
}

#[via_fn]
proof fn req_scan_decreases(s: Seq<u8>, p: int) {
    if 0 <= p < s.len() {
        lemma_wrap_ws_end(s, p);
    }
}

/// Bounds and progress of [`req_scan`].
pub proof fn lemma_req_scan(s: Seq<u8>, p: int)
    requires
        0 <= p <= s.len(),
    ensures
        p <= req_scan(s, p).end,
        req_scan(s, p).end <= req_scan(s, p).next <= s.len(),
        req_scan(s, p).next > p || req_scan(s, p).next == s.len(),
    decreases s.len() - p,
{
    if 0 <= p < s.len() && s[p] != 10 {
        lemma_wrap_ws_end(s, p);
        let w = wrap_ws_end(s, p);
        if w == p {
            lemma_req_scan(s, p + 1);
        } else if starts_with_at(s, w, dashdash()) {
        } else if w >= s.len() {
        } else if s[w] == 10 {
        } else {
            lemma_req_scan(s, w);
        }
    }
}

/// The hash suffix parse from `p`: either the byte ranges of the hash values
/// in encounter order together with the position scanning continues at, or a
/// positioned structural error.
pub ghost enum HashScan {
    /// A structural error at `loc`.
    Bad { loc: int },
    /// The hash value ranges, and where scanning continues.
    Good { ranges: Seq<(int, int)>, next: int },
}

/// Scans `--hash` tokens from `p`, which must hold a token starting with
/// `--`: each token is `--hash` followed by `=` or whitespace and a value
/// running to the next whitespace; in-line whitespace separates tokens.
pub open spec fn hashes_scan(s: Seq<u8>, p: int) -> HashScan
    decreases s.len() - p,
    via hashes_scan_decreases
{
    if !starts_with_at(s, p, hash_kw()) {
        HashScan::Bad { loc: non_ws_end(s, p) }
    } else {
        let q = p + 6;
        if q < s.len() && s[q] == 61 {
            hashes_cont(s, q + 1)
        } else if q < s.len() && is_ws(s[q]) {
            hashes_cont(s, ws_end(s, q))
        } else {
            HashScan::Bad { loc: q }
        }
    }
}

#[via_fn]
proof fn hashes_scan_decreases(s: Seq<u8>, p: int) {
    if starts_with_at(s, p, hash_kw()) {
        let q = p + 6;
        if 0 <= q < s.len() && is_ws(s[q]) {
            lemma_ws_end(s, q);
        }
    }
}

/// After the `--hash` token, the whitespace run that follows a hash value
/// leads to another token starting with `--hash`, or ends the hash suffix.
pub proof fn lemma_hashes_cont_progress(s: Seq<u8>, lo: int)
    requires
        0 <= lo <= s.len(),
        starts_with_at(s, wrap_ws_end(s, non_ws_end(s, lo)), hash_kw()),
    ensures
        lo < wrap_ws_end(s, non_ws_end(s, lo)) <= s.len(),
{
    lemma_non_ws_end(s, lo);
    let hi = non_ws_end(s, lo);
    lemma_wrap_ws_end(s, hi);
    let w = wrap_ws_end(s, hi);
    if w == lo {
        assert(hi == lo);
        if lo < s.len() && !is_ws(s[lo]) {
            lemma_non_ws_end(s, lo + 1);
            assert(false);
        }
        assert(s.subrange(w, w + 6)[0] == s[w]);
        if lo == s.len() {
            assert(false);
        }
        if is_ws(s[lo]) && s[lo] != 10 {
            lemma_wrap_ws_end(s, lo + 1);
            assert(false);
        }
        assert(s[lo] == 10);
        assert(s[w] == 45);
        assert(false);
    }
}

/// Continues [`hashes_scan`] at a hash value starting at `lo`.
pub open spec fn hashes_cont(s: Seq<u8>, lo: int) -> HashScan
    decreases s.len() - lo,
    via hashes_cont_decreases
{
    let hi = non_ws_end(s, lo);
    let w = wrap_ws_end(s, hi);
    if starts_with_at(s, w, hash_kw()) {
        match hashes_scan(s, w) {
            HashScan::Bad { loc } => HashScan::Bad { loc },
            HashScan::Good { ranges, next } => HashScan::Good {
                ranges: seq![(lo, hi)] + ranges,
                next,
            },
        }
    } else {
        HashScan::Good { ranges: seq![(lo, hi)], next: w }
    }
}

#[via_fn]
proof fn hashes_cont_decreases(s: Seq<u8>, lo: int) {
    if 0 <= lo <= s.len() {
        let hi = non_ws_end(s, lo);
        let w = wrap_ws_end(s, hi);
        if starts_with_at(s, w, hash_kw()) {
            lemma_hashes_cont_progress(s, lo);
        }
    } else if lo > s.len() {
        assert(non_ws_end(s, lo) == s.len());
    } else {
        assert(non_ws_end(s, lo) == s.len());
        assert(wrap_ws_end(s, s.len() as int) == s.len());
    }
}

/// Bounds of [`hashes_scan`] and the ranges it returns.
pub proof fn lemma_hashes_scan(s: Seq<u8>, p: int)
    requires
        0 <= p <= s.len(),
    ensures
        hashes_scan(s, p) matches HashScan::Good { ranges, next } ==> p < next <= s.len()
            && forall|i: int|
            0 <= i < ranges.len() ==> 0 <= #[trigger] ranges[i].0 <= ranges[i].1 <= s.len(),
        hashes_scan(s, p) matches HashScan::Bad { loc } ==> 0 <= loc <= s.len(),
    decreases s.len() - p,
{
    if starts_with_at(s, p, hash_kw()) {
        let q = p + 6;
        if q < s.len() && s[q] == 61 {
            lemma_hashes_cont(s, q + 1);
        } else if q < s.len() && is_ws(s[q]) {
            lemma_ws_end(s, q);
            lemma_hashes_cont(s, ws_end(s, q));
        }
    } else {
        lemma_non_ws_end(s, p);
    }
}

/// Bounds of [`hashes_cont`] and the ranges it returns.
pub proof fn lemma_hashes_cont(s: Seq<u8>, lo: int)
    requires
        0 <= lo <= s.len(),
    ensures
        hashes_cont(s, lo) matches HashScan::Good { ranges, next } ==> lo <= next <= s.len()
            && forall|i: int|
            0 <= i < ranges.len() ==> 0 <= #[trigger] ranges[i].0 <= ranges[i].1 <= s.len(),
        hashes_cont(s, lo) matches HashScan::Bad { loc } ==> 0 <= loc <= s.len(),
    decreases s.len() - lo,
{
    lemma_non_ws_end(s, lo);
    let hi = non_ws_end(s, lo);
    lemma_wrap_ws_end(s, hi);
    let w = wrap_ws_end(s, hi);
    if starts_with_at(s, w, hash_kw()) {
        lemma_hashes_cont_progress(s, lo);
        lemma_hashes_scan(s, w);
    }
}

/// The value of a `-<key>=<value>` / `-<key> <value>` flag, scanned from the
/// position right after the key: `[lo, hi)` is the value with trailing
/// whitespace dropped, and `next` where scanning continues (the line's end or
/// a comment marker).
pub ghost enum ValScan {
    /// Neither `=` nor whitespace followed the key.
    Bad { loc: int },
    /// The value's range and where scanning continues.
    Val { lo: int, hi: int, next: int },
}

/// Scans a flag value at `p` (see [`ValScan`]).
pub open spec fn value_scan(s: Seq<u8>, p: int) -> ValScan {
    if 0 <= p < s.len() && s[p] == 61 {
        let lo = p + 1;
        let re = find2(s, lo, 10, 35);
        ValScan::Val { lo, hi: trim_ws_end(s, lo, re), next: re }
    } else if 0 <= p < s.len() && is_ws(s[p]) {
        let lo = ws_end(s, p);
        let re = find2(s, lo, 10, 35);
        ValScan::Val { lo, hi: trim_ws_end(s, lo, re), next: re }
    } else {
        ValScan::Bad { loc: p }
    }
}

/// Bounds of [`value_scan`].
pub proof fn lemma_value_scan(s: Seq<u8>, p: int)
    requires
        0 <= p <= s.len(),
    ensures
        value_scan(s, p) matches ValScan::Val { lo, hi, next } ==> p < lo <= hi <= next
            <= s.len(),
{
    if 0 <= p < s.len() && s[p] == 61 {
        lemma_find2(s, p + 1, 10, 35);
        lemma_trim_ws_end(s, p + 1, find2(s, p + 1, 10, 35));
        lemma_trim_hi(s, p + 1, find2(s, p + 1, 10, 35));
    } else if 0 <= p < s.len() && is_ws(s[p]) {
        lemma_ws_end(s, p + 1);
        assert(ws_end(s, p) == ws_end(s, p + 1));
        let lo = ws_end(s, p);
        lemma_find2(s, lo, 10, 35);
        lemma_trim_ws_end(s, lo, find2(s, lo, 10, 35));
        lemma_trim_hi(s, lo, find2(s, lo, 10, 35));
    }
}

/// [`trim_ws_end`] never exceeds its upper bound.
pub proof fn lemma_trim_hi(s: Seq<u8>, lo: int, hi: int)
    ensures
        trim_ws_end(s, lo, hi) <= hi,
    decreases hi - lo,
{
    if lo < hi <= s.len() && is_ws(s[hi - 1]) {
        lemma_trim_hi(s, lo, hi - 1);
    }
}

/// One parsed statement: what stands at position `p` of a requirements file,
/// before the delegated specifier parser is consulted.
pub ghost enum Stmt {
    /// Only whitespace remains.
    Blank { next: int },
    /// A comment; `next` is the position of the terminating line break.
    Comment { next: int },
    /// `-r <path>`: include a requirements file.
    IncludeReq { loc: int, lo: int, hi: int, next: int },
    /// `-c <path>`: include a constraints file.
    IncludeCon { loc: int, lo: int, hi: int, next: int },
    /// A requirement statement; its body starts at `start`.
    Pkg { editable: bool, start: int },
    /// A flag without `=` or whitespace after its key.
    BadValue { loc: int },
    /// A statement that is none of the grammar's forms.
    BadFlag { loc: int },
}

/// The statement at position `p`.
pub open spec fn stmt_at(s: Seq<u8>, p: int) -> Stmt {
    let p1 = ws_end(s, p);
    if p1 >= s.len() {
        Stmt::Blank { next: p1 }
    } else if s[p1] == 35 {
        Stmt::Comment { next: find2(s, p1 + 1, 10, 10) }
    } else if starts_with_at(s, p1, seq![45u8, 114u8]) {
        match value_scan(s, p1 + 2) {
            ValScan::Bad { loc } => Stmt::BadValue { loc },
            ValScan::Val { lo, hi, next } => Stmt::IncludeReq { loc: p1 + 2, lo, hi, next },
        }
    } else if starts_with_at(s, p1, seq![45u8, 99u8]) {
        match value_scan(s, p1 + 2) {
            ValScan::Bad { loc } => Stmt::BadValue { loc },
            ValScan::Val { lo, hi, next } => Stmt::IncludeCon { loc: p1 + 2, lo, hi, next },
        }
    } else if starts_with_at(s, p1, seq![45u8, 101u8]) {
        Stmt::Pkg { editable: true, start: p1 + 2 }
    } else if is_alnum(s[p1]) {
        Stmt::Pkg { editable: false, start: p1 }
    } else {
        Stmt::BadFlag { loc: p1 }
    }
}

/// The hash strings `hs` are the decodings of the byte ranges `ranges`.
pub open spec fn hashes_match(s: Seq<u8>, ranges: Seq<(int, int)>, hs: Seq<String>) -> bool {
    hs.len() == ranges.len() && forall|i: int|
        0 <= i < ranges.len() ==> (valid_utf8(
            s.subrange(#[trigger] ranges[i].0, ranges[i].1),
        ) ==> hs[i]@ == decode_utf8(s.subrange(ranges[i].0, ranges[i].1)))
}

/// A requirement statement with body at `start` produced the entry `e`: the
/// delegated parser accepted the body, the editable flag is the statement's,
/// and the hashes are the suffix's values in encounter order.
pub open spec fn entry_matches(s: Seq<u8>, start: int, editable: bool, e: RequirementEntry) -> bool {
    let m = req_scan(s, start);
    &&& pep508_of(s.subrange(start, m.end)) == Some(e.requirement)
    &&& e.editable == editable
    &&& if m.has_hashes {
        match hashes_scan(s, m.next) {
            HashScan::Good { ranges, next } => hashes_match(s, ranges, e.hashes@),
            HashScan::Bad { loc } => false,
        }
    } else {
        e.hashes@.len() == 0
    }
}

/// Where scanning continues after a requirement statement with body at
/// `start` (meaningful when the statement parses).
pub open spec fn pkg_next(s: Seq<u8>, start: int) -> int {
    let m = req_scan(s, start);
    if m.has_hashes {
        match hashes_scan(s, m.next) {
            HashScan::Good { ranges, next } => next,
            HashScan::Bad { loc } => m.next,
        }
    } else {
        m.next
    }
}

/// A requirement statement with body at `start` fails: the body holds a
/// `${` environment reference, the delegated parser rejects it, or the hash
/// suffix is malformed.
pub open spec fn pkg_fails(s: Seq<u8>, start: int) -> bool {
    let m = req_scan(s, start);
    ||| contains_env_ref(s.subrange(start, m.end))
    ||| pep508_of(s.subrange(start, m.end)) is None
    ||| (m.has_hashes && hashes_scan(s, m.next) is Bad)
}

/// `e` is a structural error in `path` at offset `loc`.
pub open spec fn err_is_parser_at(e: RequirementsTxtError, path: Seq<char>, loc: int) -> bool {
    match e {
        RequirementsTxtError::Parser { message, file, location } => file@ == path && location
            == loc,
        _ => false,
    }
}

/// `e` is a specifier error in `path` bracketing the byte range
/// `lo..hi`.
pub open spec fn err_is_pep508_at(
    e: RequirementsTxtError,
    path: Seq<char>,
    lo: int,
    hi: int,
) -> bool {
    match e {
        RequirementsTxtError::Pep508 { message, file, start, end } => file@ == path && start == lo
            && end == hi,
        _ => false,
    }
}

/// `e` wraps an included file's failure, naming `path` and the offset `loc`
/// of the include directive's value, or reports the include depth bound at
/// the same position.
pub open spec fn err_is_include_at(e: RequirementsTxtError, path: Seq<char>, loc: int) -> bool {
    match e {
        RequirementsTxtError::Subfile { file, location, source } => file@ == path && location
            == loc,
        RequirementsTxtError::Parser { message, file, location } => file@ == path && location
            == loc,
        _ => false,
    }
}

/// The requirements demoted to bare requirement specifiers: hashes and
/// editable flags dropped.
pub open spec fn bare_requirements(rs: Seq<RequirementEntry>) -> Seq<Requirement> {
    rs.map_values(|e: RequirementEntry| e.requirement)
}

/// One `-r` include's effect: some content parses (through at most
/// `depth - 1` further include levels) to a result `sub`, and `b` is `a`
/// with `sub`'s requirements and then its constraints appended, in order.
pub open spec fn include_req_step(a: RequirementsTxt, b: RequirementsTxt, depth: nat) -> bool {
    depth > 0 && exists|content: Seq<u8>, sub: RequirementsTxt|
        #[trigger] parses_to(content, sub) && b.requirements@ == a.requirements@
            + sub.requirements@ && b.constraints@ == a.constraints@ + sub.constraints@
}

/// One `-c` include's effect: the requirements are untouched — what a
/// constraints include contributes never becomes a requirement — and the
/// constraints gain the included result's requirements demoted to bare
/// requirements (hashes and editable flags dropped), then its constraints,
/// in order.
pub open spec fn include_con_step(a: RequirementsTxt, b: RequirementsTxt, depth: nat) -> bool {
    &&& b.requirements@ == a.requirements@
    &&& depth > 0
    &&& exists|content: Seq<u8>, sub: RequirementsTxt|
        #[trigger] parses_to(content, sub) && b.constraints@ == a.constraints@
            + bare_requirements(sub.requirements@) + sub.constraints@
}

/// Introduces [`include_req_step`] from explicit witnesses.
pub proof fn lemma_include_req_step(
    a: RequirementsTxt,
    b: RequirementsTxt,
    depth: nat,
    content: Seq<u8>,
    sub: RequirementsTxt,
)
    requires
        depth > 0,
        parses_to(content, sub),
        b.requirements@ == a.requirements@ + sub.requirements@,
        b.constraints@ == a.constraints@ + sub.constraints@,
    ensures
        include_req_step(a, b, depth),
{
    assert(exists|c: Seq<u8>, s2: RequirementsTxt|
        #[trigger] parses_to(c, s2) && b.requirements@ == a.requirements@ + s2.requirements@
            && b.constraints@ == a.constraints@ + s2.constraints@);
    assert(include_req_step(a, b, depth));
}

/// Introduces [`include_con_step`] from explicit witnesses.
pub proof fn lemma_include_con_step(
    a: RequirementsTxt,
    b: RequirementsTxt,
    depth: nat,
    content: Seq<u8>,
    sub: RequirementsTxt,
)
    requires
        depth > 0,
        parses_to(content, sub),
        b.requirements@ == a.requirements@,
        b.constraints@ == a.constraints@ + bare_requirements(sub.requirements@) + sub.constraints@,
    ensures
        include_con_step(a, b, depth),
{
    assert(exists|c: Seq<u8>, s2: RequirementsTxt|
        #[trigger] parses_to(c, s2) && b.constraints@ == a.constraints@ + bare_requirements(
            s2.requirements@,
        ) + s2.constraints@);
    assert(include_con_step(a, b, depth));
}


/// `b` is `a` with one entry appended, produced by the requirement statement
/// with body at `start`.
pub open spec fn pushed_entry(
    a: RequirementsTxt,
    b: RequirementsTxt,
    s: Seq<u8>,
    start: int,
    editable: bool,
) -> bool {
    &&& b.constraints@ == a.constraints@
    &&& b.requirements@.len() == a.requirements@.len() + 1
    &&& b.requirements@ == a.requirements@.push(b.requirements@.last())
    &&& entry_matches(s, start, editable, b.requirements@.last())
}

/// `e` names `path` as its file; an I/O error carries no file of its own.
pub open spec fn err_names_file(e: RequirementsTxtError, path: Seq<char>) -> bool {
    match e {
        RequirementsTxtError::IO { chain } => true,
        RequirementsTxtError::Parser { message, file, location } => file@ == path,
        RequirementsTxtError::Pep508 { message, file, start, end } => file@ == path,
        RequirementsTxtError::Subfile { file, location, source } => file@ == path,
    }
}

/// When `e` wraps an included file's failure, the wrapped error names the
/// file the include directive resolved to: the including file's directory
/// joined with the value at `[lo, hi)` of `s`.
pub open spec fn include_err_source_ok(
    e: RequirementsTxtError,
    path: Seq<char>,
    s: Seq<u8>,
    lo: int,
    hi: int,
) -> bool {
    match e {
        RequirementsTxtError::Subfile { file, location, source } => (valid_utf8(
            s.subrange(lo, hi),
        ) && valid_utf8(include_target(encode_utf8(path), s.subrange(lo, hi))))
            ==> err_names_file(
            *source,
            decode_utf8(include_target(encode_utf8(path), s.subrange(lo, hi))),
        ),
        _ => true,
    }
}

/// The error in a requirement statement with body at `start`: a structural
/// error at the body's start for a `${` environment reference, the
/// specifier error bracketing the body, or the structural error in its hash
/// suffix.
pub open spec fn pkg_err_matches(s: Seq<u8>, start: int, path: Seq<char>, e: RequirementsTxtError) -> bool {
    let m = req_scan(s, start);
    if contains_env_ref(s.subrange(start, m.end)) {
        err_is_parser_at(e, path, start)
    } else if pep508_of(s.subrange(start, m.end)) is None {
        err_is_pep508_at(e, path, start, m.end)
    } else {
        match hashes_scan(s, m.next) {
            HashScan::Bad { loc } => err_is_parser_at(e, path, loc),
            _ => false,
        }
    }
}

/// The six bytes of the `--hash` keyword.
fn lit_hash_kw() -> (r: Vec<u8>)
    ensures
        r@ == hash_kw(),
{
    let mut v: Vec<u8> = Vec::new();
    v.push(45);
    v.push(45);
    v.push(104);
    v.push(97);
    v.push(115);
    v.push(104);
    proof {
        assert(v@ =~= hash_kw());
    }
    v
}

/// A two-byte flag keyword.
fn lit2(a: u8, b: u8) -> (r: Vec<u8>)
    ensures
        r@ == seq![a, b],
{
    let mut v: Vec<u8> = Vec::new();
    v.push(a);
    v.push(b);
    proof {
        assert(v@ =~= seq![a, b]);
    }
    v
}

/// Scans a requirement body; returns one past its last byte and whether a
/// hash suffix follows, leaving the cursor where scanning continues.
fn scan_req(cur: &mut Cursor) -> (r: (usize, bool))
    requires
        old(cur).wf(),
    ensures
        final(cur).wf(),
        final(cur).text() == old(cur).text(),
        r.0 == req_scan(old(cur).text(), old(cur).position()).end,
        final(cur).position() == req_scan(old(cur).text(), old(cur).position()).next,
        r.1 == req_scan(old(cur).text(), old(cur).position()).has_hashes,
    decreases old(cur).text().len() - old(cur).position(),
{
    let e = cur.cursor();
    if cur.done() {
        return (e, false);
    }
    if cur.eat_if_byte(10) {
        return (e, false);
    }
    proof {
        crate::cursor::lemma_wrap_ws_end(old(cur).text(), e as int);
    }
    cur.eat_wrappable_whitespace();
    let w = cur.cursor();
    if w == e {
        cur.bump();
        return scan_req(cur);
    }
    let dd = lit2(45, 45);
    if cur.at_lit(dd.as_slice()) {
        return (e, true);
    }
    if cur.done() {
        return (e, false);
    }
    if cur.eat_if_byte(10) {
        return (e, false);
    }
    scan_req(cur)
}

/// Parses the value of a `-<key>` flag: `=`-joined or whitespace-separated,
/// running to the line's end or a comment marker, trailing whitespace
/// dropped. Returns the value's byte range.
fn parse_value(cur: &mut Cursor, content: &[u8], path: &str) -> (r: Result<
    (usize, usize),
    RequirementsTxtError,
>)
    requires
        old(cur).wf(),
        old(cur).text() == content@,
    ensures
        final(cur).wf(),
        final(cur).text() == old(cur).text(),
        ({
            match value_scan(old(cur).text(), old(cur).position()) {
                ValScan::Bad { loc } => r matches Err(e) && err_is_parser_at(e, path@, loc),
                ValScan::Val { lo, hi, next } => r matches Ok(v) && v.0 == lo && v.1 == hi
                    && final(cur).position() == next,
            }
        }),
{
    let ghost s = old(cur).text();
    let ghost p = old(cur).position();
    if !cur.eat_if_byte(61) {
        let at_ws = match cur.peek() {
            Some(b) => crate::cursor::byte_is_ws(b),
            None => false,
        };
        if !at_ws {
            return Err(
                RequirementsTxtError::Parser {
                    message: "Expected '=' or whitespace".to_owned(),
                    file: path.to_owned(),
                    location: cur.cursor(),
                },
            );
        }
        cur.eat_whitespace();
    }
    let lo = cur.cursor();
    cur.eat_until2(10, 35);
    let re = cur.cursor();
    proof {
        lemma_find2(s, lo as int, 10, 35);
    }
    let mut hi = re;
    loop
        invariant
            cur.wf(),
            lo <= hi <= re,
            re <= content@.len(),
            content@ == s,
            trim_ws_end(s, lo as int, re as int) == trim_ws_end(s, lo as int, hi as int),
        ensures
            hi == trim_ws_end(s, lo as int, re as int),
        decreases hi,
    {
        if hi > lo {
            let b = content[hi - 1];
            if b == 32 || b == 9 || b == 10 || b == 11 || b == 12 || b == 13 {
                hi = hi - 1;
                continue;
            }
        }
        break;
    }
    Ok((lo, hi))
}

/// Parses `--hash=<value>` / `--hash <value>` tokens from the cursor,
/// accumulating the values in encounter order.
fn parse_hashes(cur: &mut Cursor, content: &[u8], path: &str) -> (r: Result<
    Vec<String>,
    RequirementsTxtError,
>)
    requires
        old(cur).wf(),
        old(cur).text() == content@,
    ensures
        final(cur).wf(),
        final(cur).text() == old(cur).text(),
        ({
            match hashes_scan(old(cur).text(), old(cur).position()) {
                HashScan::Bad { loc } => r matches Err(e) && err_is_parser_at(e, path@, loc),
                HashScan::Good { ranges, next } => r matches Ok(v) && final(cur).position() == next
                    && hashes_match(old(cur).text(), ranges, v@),
            }
        }),
    decreases old(cur).text().len() - old(cur).position(), 1int,
{
    let ghost s = old(cur).text();
    let ghost p = old(cur).position();
    let kw = lit_hash_kw();
    if !cur.eat_lit(kw.as_slice()) {
        cur.eat_non_ws();
        return Err(
            RequirementsTxtError::Parser {
                message: "Expected '--hash'".to_owned(),
                file: path.to_owned(),
                location: cur.cursor(),
            },
        );
    }
    if cur.eat_if_byte(61) {
        parse_hashes_cont(cur, content, path)
    } else {
        let at_ws = match cur.peek() {
            Some(b) => crate::cursor::byte_is_ws(b),
            None => false,
        };
        if !at_ws {
            return Err(
                RequirementsTxtError::Parser {
                    message: "Expected '=' or whitespace".to_owned(),
                    file: path.to_owned(),
                    location: cur.cursor(),
                },
            );
        }
        proof {
            lemma_ws_end(s, p + 6);
        }
        cur.eat_whitespace();
        parse_hashes_cont(cur, content, path)
    }
}

/// Parses one hash value at the cursor and any further `--hash` tokens.
fn parse_hashes_cont(cur: &mut Cursor, content: &[u8], path: &str) -> (r: Result<
    Vec<String>,
    RequirementsTxtError,
>)
    requires
        old(cur).wf(),
        old(cur).text() == content@,
    ensures
        final(cur).wf(),
        final(cur).text() == old(cur).text(),
        ({
            match hashes_cont(old(cur).text(), old(cur).position()) {
                HashScan::Bad { loc } => r matches Err(e) && err_is_parser_at(e, path@, loc),
                HashScan::Good { ranges, next } => r matches Ok(v) && final(cur).position() == next
                    && hashes_match(old(cur).text(), ranges, v@),
            }
        }),
    decreases old(cur).text().len() - old(cur).position(), 0int,
{
    let ghost s = old(cur).text();
    let ghost lo_g = old(cur).position();
    let lo = cur.cursor();
    cur.eat_non_ws();
    let hi = cur.cursor();
    proof {
        lemma_non_ws_end(s, lo as int);
    }
    let h = range_to_string(content, lo, hi);
    cur.eat_wrappable_whitespace();
    let kw = lit_hash_kw();
    if cur.at_lit(kw.as_slice()) {
        proof {
            lemma_hashes_cont_progress(s, lo as int);
        }
        match parse_hashes(cur, content, path) {
            Ok(rest) => {
                let ghost ranges_rest = match hashes_scan(
                    s,
                    wrap_ws_end(s, non_ws_end(s, lo as int)),
                ) {
                    HashScan::Good { ranges, next } => ranges,
                    HashScan::Bad { loc } => seq![],
                };
                let mut out: Vec<String> = Vec::new();
                out.push(h);
                let mut rest2 = rest;
                let ghost rest_g = rest2@;
                out.append(&mut rest2);
                proof {
                    let full = seq![(lo as int, hi as int)] + ranges_rest;
                    assert forall|i: int| 0 <= i < full.len() implies (valid_utf8(
                        s.subrange(#[trigger] full[i].0, full[i].1),
                    ) ==> out@[i]@ == decode_utf8(s.subrange(full[i].0, full[i].1))) by {
                        if i == 0 {
                            assert(full[0] == (lo as int, hi as int));
                            assert(out@[0] == h);
                        } else {
                            assert(full[i] == ranges_rest[i - 1]);
                            assert(out@[i] == rest_g[i - 1]);
                        }
                    }
                }
                Ok(out)
            },
            Err(e) => Err(e),
        }
    } else {
        let mut out: Vec<String> = Vec::new();
        out.push(h);
        proof {
            let full = seq![(lo as int, hi as int)];
            assert(out@[0] == h);
            assert(full[0] == (lo as int, hi as int));
        }
        Ok(out)
    }
}

/// Parses a requirement body and its optional hash suffix: the body is
/// handed to the delegated specifier parser, whose failure is wrapped with
/// the body's byte range and the file.
fn parse_requirement_and_hashes(cur: &mut Cursor, content: &[u8], path: &str) -> (r: Result<
    (Requirement, Vec<String>),
    RequirementsTxtError,
>)
    requires
        old(cur).wf(),
        old(cur).text() == content@,
    ensures
        final(cur).wf(),
        final(cur).text() == old(cur).text(),
        ({
            let s = old(cur).text();
            let start = old(cur).position();
            let m = req_scan(s, start);
            &&& (r matches Ok(t) ==> !pkg_fails(s, start) && pep508_of(s.subrange(start, m.end))
                == Some(t.0) && final(cur).position() == pkg_next(s, start) && (if m.has_hashes {
                match hashes_scan(s, m.next) {
                    HashScan::Good { ranges, next } => hashes_match(s, ranges, t.1@),
                    HashScan::Bad { loc } => false,
                }
            } else {
                t.1@.len() == 0
            }))
            &&& (r matches Err(e) ==> pkg_fails(s, start) && pkg_err_matches(s, start, path@, e))
        }),
{
    let ghost s = old(cur).text();
    let start = cur.cursor();
    let (end, has_hashes) = scan_req(cur);
    proof {
        lemma_req_scan(s, start as int);
    }
    let piece = sub_bytes(content, start, end);
    if find_env_ref(piece.as_slice()) {
        return Err(
            RequirementsTxtError::Parser {
                message: "environment-variable references are not supported in specifiers"
                    .to_owned(),
                file: path.to_owned(),
                location: start,
            },
        );
    }
    let req = match parse_pep508(piece.as_slice()) {
        Ok(req) => req,
        Err(message) => {
            return Err(
                RequirementsTxtError::Pep508 {
                    message,
                    file: path.to_owned(),
                    start,
                    end,
                },
            );
        },
    };
    let hashes = if has_hashes {
        match parse_hashes(cur, content, path) {
            Ok(v) => v,
            Err(e) => return Err(e),
        }
    } else {
        Vec::new()
    };
    Ok((req, hashes))
}

/// The position of the last `/` in `s`, or `-1` when there is none.
pub open spec fn last_slash(s: Seq<u8>) -> int
    decreases s.len(),
{
    if s.len() == 0 {
        -1
    } else if s[s.len() - 1] == 47 {
        s.len() - 1
    } else {
        last_slash(s.drop_last())
    }
}

/// The bytes of the file an include directive refers to: the value itself
/// when absolute (or when the including file's path has no directory part),
/// else the including file's directory followed by the value.
pub open spec fn include_target(pb: Seq<u8>, vb: Seq<u8>) -> Seq<u8> {
    if vb.len() > 0 && vb[0] == 47 {
        vb
    } else if last_slash(pb) < 0 {
        vb
    } else {
        pb.subrange(0, last_slash(pb) + 1) + vb
    }
}

/// Resolves an include directive's value relative to the including file's
/// directory (not the caller's working directory). Paths use `/` as the
/// separator.
pub fn resolve_include(path: &str, value: &str) -> (r: String)
    ensures
        valid_utf8(include_target(path.spec_bytes(), value.spec_bytes())) ==> r@ == decode_utf8(
            include_target(path.spec_bytes(), value.spec_bytes()),
        ),
{
    let pb = path.as_bytes();
    let vb = value.as_bytes();
    proof {
        vstd::utf8::encode_utf8_valid_utf8(value@);
        vstd::utf8::encode_utf8_decode_utf8(value@);
    }
    if vb.len() > 0 && vb[0] == 47 {
        return value.to_owned();
    }
    let mut i: usize = pb.len();
    proof {
        assert(pb@.subrange(0, pb@.len() as int) =~= pb@);
    }
    loop
        invariant
            i <= pb@.len(),
            last_slash(pb@) == last_slash(pb@.subrange(0, i as int)),
        ensures
            if last_slash(pb@) < 0 {
                i == 0
            } else {
                i >= 1 && last_slash(pb@) == i - 1
            },
        decreases i,
    {
        if i == 0 {
            break;
        }
        if pb[i - 1] == 47 {
            proof {
                assert(last_slash(pb@.subrange(0, i as int)) == i - 1);
            }
            break;
        }
        proof {
            assert(pb@.subrange(0, i as int).drop_last() =~= pb@.subrange(0, i - 1));
        }
        i = i - 1;
    }
    if i == 0 {
        return value.to_owned();
    }
    let mut out = sub_bytes(pb, 0, i);
    let mut j: usize = 0;
    while j < vb.len()
        invariant
            j <= vb@.len(),
            out@ == pb@.subrange(0, i as int) + vb@.subrange(0, j as int),
        decreases vb@.len() - j,
    {
        out.push(vb[j]);
        proof {
            assert(out@ =~= pb@.subrange(0, i as int) + vb@.subrange(0, j + 1));
        }
        j = j + 1;
    }
    proof {
        assert(vb@.subrange(0, vb@.len() as int) =~= vb@);
        assert(out@ == include_target(path.spec_bytes(), value.spec_bytes()));
    }
    crate::bytes::bytes_to_string(out.as_slice())
}

/// Bounds of the positions a statement leaves scanning at.
pub proof fn lemma_stmt_bounds(s: Seq<u8>, p: int)
    requires
        0 <= p <= s.len(),
    ensures
        match stmt_at(s, p) {
            Stmt::Blank { next } => next == s.len(),
            Stmt::Comment { next } => p < next <= s.len(),
            Stmt::Pkg { editable, start } => 0 <= start <= s.len() && 0 <= pkg_next(s, start)
                <= s.len() && (pkg_next(s, start) > p || pkg_next(s, start) == s.len()),
            Stmt::IncludeReq { loc, lo, hi, next } => p < loc && 0 <= lo <= hi <= next <= s.len()
                && next > p,
            Stmt::IncludeCon { loc, lo, hi, next } => p < loc && 0 <= lo <= hi <= next <= s.len()
                && next > p,
            Stmt::BadValue { loc } => 0 <= loc <= s.len(),
            Stmt::BadFlag { loc } => 0 <= loc <= s.len(),
        },
{
    lemma_ws_end(s, p);
    let p1 = ws_end(s, p);
    if p1 >= s.len() {
    } else if s[p1] == 35 {
        lemma_find2(s, p1 + 1, 10, 10);
    } else if starts_with_at(s, p1, seq![45u8, 114u8]) {
        lemma_value_scan(s, p1 + 2);
    } else if starts_with_at(s, p1, seq![45u8, 99u8]) {
        lemma_value_scan(s, p1 + 2);
    } else {
        let start = if starts_with_at(s, p1, seq![45u8, 101u8]) {
            p1 + 2
        } else {
            p1
        };
        if starts_with_at(s, p1, seq![45u8, 101u8]) || is_alnum(s[p1]) {
            lemma_req_scan(s, start);
            let m = req_scan(s, start);
            if m.has_hashes {
                lemma_hashes_scan(s, m.next);
            }
        }
    }
}

/// The state views after a `-r` include that contributed `sub`: its
/// requirements and then its constraints appended, in order.
pub open spec fn req_merge(
    rs: Seq<RequirementEntry>,
    cs: Seq<Requirement>,
    mid_rs: Seq<RequirementEntry>,
    mid_cs: Seq<Requirement>,
    sub: RequirementsTxt,
) -> bool {
    mid_rs == rs + sub.requirements@ && mid_cs == cs + sub.constraints@
}

/// The state views after a `-c` include that contributed `sub`: the
/// requirements untouched, the constraints extended by `sub`'s requirements
/// demoted to bare specifiers and then its constraints, in order.
pub open spec fn con_merge(
    rs: Seq<RequirementEntry>,
    cs: Seq<Requirement>,
    mid_rs: Seq<RequirementEntry>,
    mid_cs: Seq<Requirement>,
    sub: RequirementsTxt,
) -> bool {
    mid_rs == rs && mid_cs == cs + bare_requirements(sub.requirements@) + sub.constraints@
}

/// One way a successful parse of the file's remainder can go: starting at
/// `from` with the requirements `rs` and constraints `cs` collected so far,
/// the statements lead to exactly `rs_out` and `cs_out`. An include
/// contributes whatever its file's own parse yields, which depends on the
/// disk, so the relation admits every such outcome; the other statements are
/// deterministic.
pub open spec fn parse_steps(
    s: Seq<u8>,
    from: int,
    rs: Seq<RequirementEntry>,
    cs: Seq<Requirement>,
    rs_out: Seq<RequirementEntry>,
    cs_out: Seq<Requirement>,
) -> bool
    decreases s.len() - from,
        when 0 <= from <= s.len()
    via parse_steps_decreases
{
    match stmt_at(s, from) {
        Stmt::Blank { next } => rs == rs_out && cs == cs_out,
        Stmt::Comment { next } => parse_steps(s, next, rs, cs, rs_out, cs_out),
        Stmt::Pkg { editable, start } => !pkg_fails(s, start) && exists|e: RequirementEntry|
            #[trigger] entry_matches(s, start, editable, e) && parse_steps(
                s,
                pkg_next(s, start),
                rs.push(e),
                cs,
                rs_out,
                cs_out,
            ),
        Stmt::IncludeReq { loc, lo, hi, next } => exists|
            sub: RequirementsTxt,
            mid_rs: Seq<RequirementEntry>,
            mid_cs: Seq<Requirement>,
        |
            #[trigger] req_merge(rs, cs, mid_rs, mid_cs, sub) && parse_steps(
                s,
                next,
                mid_rs,
                mid_cs,
                rs_out,
                cs_out,
            ),
        Stmt::IncludeCon { loc, lo, hi, next } => exists|
            sub: RequirementsTxt,
            mid_rs: Seq<RequirementEntry>,
            mid_cs: Seq<Requirement>,
        |
            #[trigger] con_merge(rs, cs, mid_rs, mid_cs, sub) && parse_steps(
                s,
                next,
                mid_rs,
                mid_cs,
                rs_out,
                cs_out,
            ),
        Stmt::BadValue { loc } => false,
        Stmt::BadFlag { loc } => false,
    }
}

#[via_fn]
proof fn parse_steps_decreases(
    s: Seq<u8>,
    from: int,
    rs: Seq<RequirementEntry>,
    cs: Seq<Requirement>,
    rs_out: Seq<RequirementEntry>,
    cs_out: Seq<Requirement>,
) {
    lemma_stmt_bounds(s, from);
}

/// A failing parse of the file's remainder from `from` reports `e`: the
/// deterministic statements before the failure succeed, and `e` is a failing
/// statement's error — at an include, whatever the included file's parse
/// reported, wrapped and positioned at the directive's value.
pub open spec fn parse_err_at(s: Seq<u8>, from: int, path: Seq<char>, e: RequirementsTxtError) -> bool
    decreases s.len() - from,
        when 0 <= from <= s.len()
    via parse_err_at_decreases
{
    match stmt_at(s, from) {
        Stmt::Blank { next } => false,
        Stmt::Comment { next } => parse_err_at(s, next, path, e),
        Stmt::Pkg { editable, start } => (pkg_fails(s, start) && pkg_err_matches(
            s,
            start,
            path,
            e,
        )) || (!pkg_fails(s, start) && parse_err_at(s, pkg_next(s, start), path, e)),
        Stmt::IncludeReq { loc, lo, hi, next } => err_is_include_at(e, path, loc) || parse_err_at(
            s,
            next,
            path,
            e,
        ),
        Stmt::IncludeCon { loc, lo, hi, next } => err_is_include_at(e, path, loc) || parse_err_at(
            s,
            next,
            path,
            e,
        ),
        Stmt::BadValue { loc } => err_is_parser_at(e, path, loc),
        Stmt::BadFlag { loc } => err_is_parser_at(e, path, loc),
    }
}

#[via_fn]
proof fn parse_err_at_decreases(s: Seq<u8>, from: int, path: Seq<char>, e: RequirementsTxtError) {
    lemma_stmt_bounds(s, from);
}

/// The content `s` can parse to `t`, following includes through at most
/// `depth` further levels: the fold of the per-statement semantics over the
/// whole content, starting from the empty state.
pub open spec fn parses_to(s: Seq<u8>, t: RequirementsTxt) -> bool {
    parse_steps(
        s,
        0,
        Seq::<RequirementEntry>::empty(),
        Seq::<Requirement>::empty(),
        t.requirements@,
        t.constraints@,
    )
}

impl RequirementsTxt {
    /// Parses the requirements file at `requirements_txt`, recursively
    /// following `-r` and `-c` includes, each resolved relative to its own
    /// file's directory, to a maximum depth of [`MAX_INCLUDE_DEPTH`]. What
    /// the disk holds decides the content; on success the result is the fold
    /// of the per-statement semantics over that content
    /// ([`Self::parse_content`]), and on failure the error names this file.
    pub fn parse(requirements_txt: &str) -> (r: Result<RequirementsTxt, RequirementsTxtError>)
        ensures
            r matches Ok(t) ==> exists|content: Seq<u8>| #[trigger] parses_to(content, t),
            r matches Err(e) ==> err_names_file(e, requirements_txt@) && (e is IO || exists|
                content: Seq<u8>,
            | #[trigger] parse_err_at(content, 0, requirements_txt@, e)),
    {
        Self::parse_with_depth(requirements_txt, MAX_INCLUDE_DEPTH)
    }

    /// Parses one file, following includes through at most `depth` further
    /// levels: what the disk holds at `path` decides the content; the
    /// content-level contract is [`Self::parse_content`]'s.
    pub fn parse_with_depth(path: &str, depth: u32) -> (r: Result<
        RequirementsTxt,
        RequirementsTxtError,
    >)
        ensures
            r matches Ok(t) ==> exists|content: Seq<u8>| #[trigger] parses_to(content, t),
            r matches Err(e) ==> err_names_file(e, path@) && (e is IO || exists|content: Seq<u8>|
                #[trigger] parse_err_at(content, 0, path@, e)),
        decreases depth, 2int,
    {
        let content = match crate::fsio::fs_read(path) {
            Ok(c) => c,
            Err(chain) => return Err(RequirementsTxtError::IO { chain }),
        };
        let r = Self::parse_content(content.as_slice(), path, depth);
        proof {
            if r is Ok {
                assert(parses_to(content@, r.unwrap()));
            } else {
                assert(parse_err_at(content@, 0, path@, r->Err_0));
            }
        }
        r
    }

    /// Parses one file's content: on success the result is the fold of the
    /// per-statement semantics ([`parse_steps`]) over the whole content,
    /// starting from the empty state; on failure the error is a failing
    /// statement's, positioned in `path` ([`parse_err_at`]).
    pub fn parse_content(content: &[u8], path: &str, depth: u32) -> (r: Result<
        RequirementsTxt,
        RequirementsTxtError,
    >)
        ensures
            r matches Ok(t) ==> parses_to(content@, t),
            r matches Err(e) ==> parse_err_at(content@, 0, path@, e) && err_names_file(e, path@),
        decreases depth, 1int,
    {
        let mut data = RequirementsTxt { requirements: Vec::new(), constraints: Vec::new() };
        let mut cur = Cursor::new(content);
        let ghost s = content@;
        loop
            invariant
                cur.wf(),
                cur.text() == s,
                s == content@,
                forall|ors: Seq<RequirementEntry>, ocs: Seq<Requirement>| #[trigger] parse_steps(
                    s,
                    cur.position(),
                    data.requirements@,
                    data.constraints@,
                    ors,
                    ocs,
                ) ==> parse_steps(
                    s,
                    0,
                    Seq::<RequirementEntry>::empty(),
                    Seq::<Requirement>::empty(),
                    ors,
                    ocs,
                ),
                forall|e: RequirementsTxtError| #[trigger] parse_err_at(s, cur.position(), path@, e)
                    ==> parse_err_at(s, 0, path@, e),
            ensures
                cur.position() == s.len(),
            decreases s.len() - cur.position(),
        {
            if cur.done() {
                break;
            }
            let ghost pos1 = cur.position();
            let ghost data1 = data;
            let step = data.parse_entry(&mut cur, content, path, depth);
            proof {
                lemma_stmt_bounds(s, pos1);
            }
            match step {
                Ok(()) => {
                    proof {
                        let pos2 = cur.position();
                        assert forall|ors: Seq<RequirementEntry>, ocs: Seq<Requirement>|
                            #[trigger] parse_steps(
                                s,
                                pos2,
                                data.requirements@,
                                data.constraints@,
                                ors,
                                ocs,
                            ) implies parse_steps(
                            s,
                            0,
                            Seq::<RequirementEntry>::empty(),
                            Seq::<Requirement>::empty(),
                            ors,
                            ocs,
                        ) by {
                            match stmt_at(s, pos1) {
                                Stmt::Blank { next } => {
                                    assert(parse_steps(
                                        s,
                                        pos1,
                                        data1.requirements@,
                                        data1.constraints@,
                                        ors,
                                        ocs,
                                    ));
                                },
                                Stmt::Comment { next } => {
                                    assert(parse_steps(
                                        s,
                                        pos1,
                                        data1.requirements@,
                                        data1.constraints@,
                                        ors,
                                        ocs,
                                    ));
                                },
                                Stmt::Pkg { editable, start } => {
                                    assert(pushed_entry(data1, data, s, start, editable));
                                    let e = data.requirements@.last();
                                    assert(entry_matches(s, start, editable, e));
                                    assert(data.requirements@ == data1.requirements@.push(e));
                                    assert(parse_steps(
                                        s,
                                        pos1,
                                        data1.requirements@,
                                        data1.constraints@,
                                        ors,
                                        ocs,
                                    ));
                                },
                                Stmt::IncludeReq { loc, lo, hi, next } => {
                                    assert(include_req_step(data1, data, depth as nat));
                                    let (_content, sub) = choose|
                                        content: Seq<u8>,
                                        sub: RequirementsTxt,
                                    |
                                        #[trigger] parses_to(content, sub)
                                            && data.requirements@ == data1.requirements@
                                            + sub.requirements@ && data.constraints@
                                            == data1.constraints@ + sub.constraints@;
                                    assert(req_merge(
                                        data1.requirements@,
                                        data1.constraints@,
                                        data.requirements@,
                                        data.constraints@,
                                        sub,
                                    ));
                                    assert(parse_steps(
                                        s,
                                        pos1,
                                        data1.requirements@,
                                        data1.constraints@,
                                        ors,
                                        ocs,
                                    ));
                                },
                                Stmt::IncludeCon { loc, lo, hi, next } => {
                                    assert(include_con_step(data1, data, depth as nat));
                                    let (_content, sub) = choose|
                                        content: Seq<u8>,
                                        sub: RequirementsTxt,
                                    |
                                        #[trigger] parses_to(content, sub)
                                            && data.constraints@ == data1.constraints@
                                            + bare_requirements(sub.requirements@)
                                            + sub.constraints@;
                                    assert(con_merge(
                                        data1.requirements@,
                                        data1.constraints@,
                                        data.requirements@,
                                        data.constraints@,
                                        sub,
                                    ));
                                    assert(parse_steps(
                                        s,
                                        pos1,
                                        data1.requirements@,
                                        data1.constraints@,
                                        ors,
                                        ocs,
                                    ));
                                },
                                Stmt::BadValue { loc } => {
                                    assert(false);
                                },
                                Stmt::BadFlag { loc } => {
                                    assert(false);
                                },
                            }
                        }
                        assert forall|e: RequirementsTxtError| #[trigger] parse_err_at(
                            s,
                            pos2,
                            path@,
                            e,
                        ) implies parse_err_at(s, 0, path@, e) by {
                            match stmt_at(s, pos1) {
                                Stmt::Blank { next } => {
                                    assert(stmt_at(s, pos2) is Blank);
                                    assert(!parse_err_at(s, pos2, path@, e));
                                },
                                Stmt::Comment { next } => {
                                    assert(parse_err_at(s, pos1, path@, e));
                                },
                                Stmt::Pkg { editable, start } => {
                                    assert(parse_err_at(s, pos1, path@, e));
                                },
                                Stmt::IncludeReq { loc, lo, hi, next } => {
                                    assert(parse_err_at(s, pos1, path@, e));
                                },
                                Stmt::IncludeCon { loc, lo, hi, next } => {
                                    assert(parse_err_at(s, pos1, path@, e));
                                },
                                Stmt::BadValue { loc } => {
                                    assert(false);
                                },
                                Stmt::BadFlag { loc } => {
                                    assert(false);
                                },
                            }
                        }
                    }
                },
                Err(e) => {
                    proof {
                        assert(parse_err_at(s, pos1, path@, e));
                    }
                    return Err(e);
                },
            }
        }
        proof {
            assert(stmt_at(s, s.len() as int) is Blank) by {
                lemma_ws_end(s, s.len() as int);
            }
            assert(parse_steps(
                s,
                cur.position(),
                data.requirements@,
                data.constraints@,
                data.requirements@,
                data.constraints@,
            ));
        }
        Ok(data)
    }

    /// Parses a single statement at the cursor: a comment, an include, an
    /// editable requirement, or a plain requirement, as [`stmt_at`] lays the
    /// text out. Requirements inside a `-c` include never reach
    /// `requirements` and lose hashes and editable flags; the first error
    /// aborts with a positioned diagnostic.
    pub fn parse_entry(
        &mut self,
        cur: &mut Cursor,
        content: &[u8],
        path: &str,
        depth: u32,
    ) -> (r: Result<(), RequirementsTxtError>)
        requires
            old(cur).wf(),
            old(cur).text() == content@,
        ensures
            final(cur).wf(),
            final(cur).text() == old(cur).text(),
            ({
                let s = old(cur).text();
                match stmt_at(s, old(cur).position()) {
                    Stmt::Blank { next } => r is Ok && final(cur).position() == next
                        && *final(self) == *old(self),
                    Stmt::Comment { next } => r is Ok && final(cur).position() == next
                        && *final(self) == *old(self),
                    Stmt::Pkg { editable, start } => {
                        &&& (r is Ok ==> !pkg_fails(s, start) && final(cur).position() == pkg_next(
                            s,
                            start,
                        ) && pushed_entry(*old(self), *final(self), s, start, editable))
                        &&& (r matches Err(e) ==> pkg_fails(s, start) && pkg_err_matches(
                            s,
                            start,
                            path@,
                            e,
                        ))
                    },
                    Stmt::IncludeReq { loc, lo, hi, next } => {
                        &&& (r is Ok ==> final(cur).position() == next && include_req_step(
                            *old(self),
                            *final(self),
                            depth as nat,
                        ))
                        &&& (r matches Err(e) ==> err_is_include_at(e, path@, loc)
                            && include_err_source_ok(e, path@, s, lo, hi))
                    },
                    Stmt::IncludeCon { loc, lo, hi, next } => {
                        &&& (r is Ok ==> final(cur).position() == next && include_con_step(
                            *old(self),
                            *final(self),
                            depth as nat,
                        ))
                        &&& (r matches Err(e) ==> err_is_include_at(e, path@, loc)
                            && include_err_source_ok(e, path@, s, lo, hi))
                    },
                    Stmt::BadValue { loc } => r matches Err(e) && err_is_parser_at(e, path@, loc),
                    Stmt::BadFlag { loc } => r matches Err(e) && err_is_parser_at(e, path@, loc),
                }
            }),
            r is Ok ==> final(cur).position() > old(cur).position() || final(cur).position()
                == old(cur).text().len(),
            r is Err ==> *final(self) == *old(self),
            r matches Err(e) ==> err_names_file(e, path@),
        decreases depth, 0int,
    {
        let ghost s = old(cur).text();
        let ghost p = old(cur).position();
        proof {
            lemma_ws_end(s, p);
        }
        cur.eat_whitespace();
        if cur.done() {
            return Ok(());
        }
        if cur.eat_if_byte(35) {
            proof {
                lemma_find2(s, cur.position(), 10, 10);
            }
            cur.eat_until2(10, 10);
            return Ok(());
        }
        let litr = lit2(45, 114);
        let litc = lit2(45, 99);
        let lite = lit2(45, 101);
        if cur.eat_lit(litr.as_slice()) {
            let loc = cur.cursor();
            proof {
                lemma_value_scan(s, loc as int);
            }
            let (lo, hi) = match parse_value(cur, content, path) {
                Ok(v) => v,
                Err(e) => return Err(e),
            };
            let value = range_to_string(content, lo, hi);
            let sub_path = resolve_include(path, value.as_str());
            if depth == 0 {
                return Err(
                    RequirementsTxtError::Parser {
                        message: "maximum include depth exceeded".to_owned(),
                        file: path.to_owned(),
                        location: loc,
                    },
                );
            }
            let sub_depth: u32 = depth - 1;
            match Self::parse_with_depth(sub_path.as_str(), sub_depth) {
                Ok(sub) => {
                    let ghost sub_g = sub;
                    let mut sub2 = sub;
                    let ghost rs = sub2.requirements@;
                    let ghost cs = sub2.constraints@;
                    self.requirements.append(&mut sub2.requirements);
                    self.constraints.append(&mut sub2.constraints);
                    proof {
                        assert(self.requirements@ == old(self).requirements@ + rs);
                        assert(self.constraints@ == old(self).constraints@ + cs);
                        let content = choose|c: Seq<u8>| #[trigger] parses_to(c, sub_g);
                        lemma_include_req_step(*old(self), *self, depth as nat, content, sub_g);
                    }
                    Ok(())
                },
                Err(e) => {
                    proof {
                        let pb = path.spec_bytes();
                        let sub = s.subrange(lo as int, hi as int);
                        if valid_utf8(sub) && valid_utf8(include_target(pb, sub)) {
                            vstd::utf8::decode_utf8_encode_utf8(sub);
                            assert(encode_utf8(value@) == sub);
                            assert(sub_path@ == decode_utf8(include_target(pb, sub)));
                        }
                    }
                    Err(
                        RequirementsTxtError::Subfile {
                            file: path.to_owned(),
                            location: loc,
                            source: Box::new(e),
                        },
                    )
                },
            }
        } else if cur.eat_lit(litc.as_slice()) {
            let loc = cur.cursor();
            proof {
                lemma_value_scan(s, loc as int);
            }
            let (lo, hi) = match parse_value(cur, content, path) {
                Ok(v) => v,
                Err(e) => return Err(e),
            };
            let value = range_to_string(content, lo, hi);
            let sub_path = resolve_include(path, value.as_str());
            if depth == 0 {
                return Err(
                    RequirementsTxtError::Parser {
                        message: "maximum include depth exceeded".to_owned(),
                        file: path.to_owned(),
                        location: loc,
                    },
                );
            }
            let sub_depth: u32 = depth - 1;
            match Self::parse_with_depth(sub_path.as_str(), sub_depth) {
                Ok(sub) => {
                    let ghost sub_g = sub;
                    let mut sub2 = sub;
                    let ghost c0 = self.constraints@;
                    let ghost sub_reqs = sub2.requirements@;
                    let n0: usize = sub2.requirements.len();
                    let mut k: usize = 0;
                    while sub2.requirements.len() > 0
                        invariant
                            n0 == sub_reqs.len(),
                            k <= sub_reqs.len(),
                            sub2.requirements@ == sub_reqs.skip(k as int),
                            sub2.constraints@ == sub_g.constraints@,
                            self.requirements@ == old(self).requirements@,
                            self.constraints@ == c0 + bare_requirements(sub_reqs.take(k as int)),
                        decreases sub_reqs.len() - k,
                    {
                        proof {
                            assert(k < sub_reqs.len());
                        }
                        let entry = sub2.requirements.remove(0);
                        proof {
                            assert(entry == sub_reqs[k as int]);
                            assert(sub2.requirements@ =~= sub_reqs.skip(k + 1));
                        }
                        self.constraints.push(entry.requirement);
                        proof {
                            assert(self.constraints@ =~= c0 + bare_requirements(
                                sub_reqs.take(k + 1),
                            ));
                        }
                        k = k + 1;
                    }
                    proof {
                        assert(sub_reqs.take(sub_reqs.len() as int) =~= sub_reqs);
                    }
                    let ghost sub_cs = sub2.constraints@;
                    self.constraints.append(&mut sub2.constraints);
                    proof {
                        assert(self.constraints@ == c0 + bare_requirements(sub_reqs) + sub_cs);
                        let content = choose|c: Seq<u8>| #[trigger] parses_to(c, sub_g);
                        lemma_include_con_step(*old(self), *self, depth as nat, content, sub_g);
                    }
                    Ok(())
                },
                Err(e) => {
                    proof {
                        let pb = path.spec_bytes();
                        let sub = s.subrange(lo as int, hi as int);
                        if valid_utf8(sub) && valid_utf8(include_target(pb, sub)) {
                            vstd::utf8::decode_utf8_encode_utf8(sub);
                            assert(encode_utf8(value@) == sub);
                            assert(sub_path@ == decode_utf8(include_target(pb, sub)));
                        }
                    }
                    Err(
                        RequirementsTxtError::Subfile {
                            file: path.to_owned(),
                            location: loc,
                            source: Box::new(e),
                        },
                    )
                },
            }
        } else if cur.eat_lit(lite.as_slice()) {
            let ghost start = cur.position();
            proof {
                lemma_req_scan(s, start);
                if req_scan(s, start).has_hashes {
                    lemma_hashes_scan(s, req_scan(s, start).next);
                }
            }
            match parse_requirement_and_hashes(cur, content, path) {
                Ok((requirement, hashes)) => {
                    self.requirements.push(
                        RequirementEntry { requirement, hashes, editable: true },
                    );
                    Ok(())
                },
                Err(e) => Err(e),
            }
        } else if cur.at_alnum() {
            let ghost start = cur.position();
            proof {
                lemma_req_scan(s, start);
                if req_scan(s, start).has_hashes {
                    lemma_hashes_scan(s, req_scan(s, start).next);
                }
            }
            match parse_requirement_and_hashes(cur, content, path) {
                Ok((requirement, hashes)) => {
                    self.requirements.push(
                        RequirementEntry { requirement, hashes, editable: false },
                    );
                    Ok(())
                },
                Err(e) => Err(e),
            }
        } else {
            Err(
                RequirementsTxtError::Parser {
                    message: "Unsupported statement; expected a requirement, `-r`, `-c`, `-e`, or a comment".to_owned(),
                    file: path.to_owned(),
                    location: cur.cursor(),
                },
            )
        }
    }
}

} // verus!


