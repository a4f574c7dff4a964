//! The RECORD manifest: three-column rows — relative path, optional
//! `algorithm:digest`, optional size — read for integrity verification and
//! written back in the same shape.
use vstd::prelude::*;

verus! {

use vstd::string::StringSliceAdditionalSpecFns;
use vstd::utf8::valid_utf8;
use vstd::utf8::decode_utf8;
use crate::bytes::sub_bytes;
use crate::bytes::range_to_string;
use crate::bytes::str_eq;
use crate::wheel_tags::split_bytes;
use crate::wheel_tags::split_vec;
use crate::wheel_tags::decodes_to;

/// One RECORD row: a relative path, an optional `algorithm:digest` string,
/// and an optional size in bytes.
#[derive(Debug, Clone, PartialEq, Eq)]
pub struct RecordEntry {
    /// The installed file's path, relative to the package root.
    pub path: String,
    /// The `algorithm:digest` column, when present.
    pub digest: Option<String>,
    /// The size column, when present.
    pub size: Option<u64>,
}

/// Every byte is an ASCII digit.
pub open spec fn all_digits(b: Seq<u8>) -> bool {
    forall|i: int| 0 <= i < b.len() ==> 48 <= #[trigger] b[i] <= 57
}

/// The number the digit bytes spell, most significant first.
pub open spec fn digits_val(b: Seq<u8>) -> int
    decreases b.len(),
{
    if b.len() == 0 {
        0
    } else {
        digits_val(b.drop_last()) * 10 + (b.last() - 48)
    }
}

/// The value of a digit prefix never exceeds the whole number's value.
pub proof fn lemma_digits_val_mono(b: Seq<u8>, i: int)
    requires
        0 <= i <= b.len(),
        all_digits(b),
    ensures
        0 <= digits_val(b.subrange(0, i)) <= digits_val(b),
    decreases b.len() - i,
{
    lemma_digits_val_nonneg(b.subrange(0, i));
    if i < b.len() {
        lemma_digits_val_mono(b, i + 1);
        assert(b.subrange(0, i + 1).drop_last() =~= b.subrange(0, i));
        assert(b.subrange(0, i + 1).last() == b[i]);
        assert(digits_val(b.subrange(0, i + 1)) == digits_val(b.subrange(0, i)) * 10 + (b[i]
            - 48));
    } else {
        assert(b.subrange(0, i) =~= b);
    }
}

/// A digit string's value is not negative.
pub proof fn lemma_digits_val_nonneg(b: Seq<u8>)
    requires
        all_digits(b),
    ensures
        digits_val(b) >= 0,
    decreases b.len(),
{
    if b.len() > 0 {
        assert(all_digits(b.drop_last()));
        lemma_digits_val_nonneg(b.drop_last());
    }
}

/// The size column's meaning: empty means no size; digit bytes that fit in
/// 64 bits mean that number; anything else makes the row invalid.
pub open spec fn size_of_field(b: Seq<u8>) -> Option<Option<int>> {
    if b.len() == 0 {
        Some(None)
    } else if all_digits(b) && digits_val(b) <= u64::MAX {
        Some(Some(digits_val(b)))
    } else {
        None
    }
}

/// Parses the size column.
fn parse_size(b: &[u8]) -> (r: Result<Option<u64>, String>)
    ensures
        match size_of_field(b@) {
            None => r is Err,
            Some(None) => r matches Ok(v) && v is None,
            Some(Some(n)) => r matches Ok(v) && v matches Some(x) && x == n,
        },
{
    if b.len() == 0 {
        return Ok(None);
    }
    let mut v: u64 = 0;
    let mut i: usize = 0;
    let n = b.len();
    while i < n
        invariant
            i <= n,
            n == b@.len(),
            all_digits(b@.subrange(0, i as int)),
            v == digits_val(b@.subrange(0, i as int)),
        decreases n - i,
    {
        let d = b[i];
        if !(48 <= d && d <= 57) {
            proof {
                assert(b@[i as int] == d);
                assert(!all_digits(b@));
            }
            return Err("size column is not a number".to_owned());
        }
        if v > (u64::MAX - ((d - 48) as u64)) / 10 {
            proof {
                assert(all_digits(b@.subrange(0, i + 1))) by {
                    assert(forall|j: int|
                        0 <= j < i + 1 ==> #[trigger] b@.subrange(0, i + 1)[j] == b@.subrange(
                            0,
                            i as int,
                        ).push(d)[j]);
                    assert(b@.subrange(0, i + 1) =~= b@.subrange(0, i as int).push(d));
                }
                assert(b@.subrange(0, i + 1).drop_last() =~= b@.subrange(0, i as int));
                assert(digits_val(b@.subrange(0, i + 1)) == v * 10 + (d - 48));
                if all_digits(b@) {
                    lemma_digits_val_mono(b@, i + 1);
                    assert(digits_val(b@) > u64::MAX);
                }
            }
            return Err("size column does not fit in 64 bits".to_owned());
        }
        proof {
            assert(b@.subrange(0, i + 1) =~= b@.subrange(0, i as int).push(d));
            assert(b@.subrange(0, i + 1).drop_last() =~= b@.subrange(0, i as int));
        }
        v = v * 10 + ((d - 48) as u64);
        i = i + 1;
    }
    proof {
        assert(b@.subrange(0, n as int) =~= b@);
    }
    Ok(Some(v))
}

/// One row's model: the byte fields a valid row decomposes into.
pub ghost struct RowModel {
    /// The path column's bytes.
    pub path: Seq<u8>,
    /// The digest column's bytes, when nonempty.
    pub digest: Option<Seq<u8>>,
    /// The size column's value, when nonempty.
    pub size: Option<int>,
}

/// Strips one trailing carriage return.
pub open spec fn strip_cr(line: Seq<u8>) -> Seq<u8> {
    if line.len() > 0 && line.last() == 13 {
        line.drop_last()
    } else {
        line
    }
}

/// The rows the RECORD lines from index `i` on describe: `None` when some
/// row is malformed; empty lines are skipped.
pub open spec fn rows_model(lines: Seq<Seq<u8>>, i: int) -> Option<Seq<RowModel>>
    decreases lines.len() - i,
{
    if !(0 <= i < lines.len()) {
        Some(seq![])
    } else {
        let line = strip_cr(lines[i]);
        let rest = rows_model(lines, i + 1);
        if line.len() == 0 {
            rest
        } else {
            let fields = split_bytes(line, 44);
            if fields.len() != 3 {
                None
            } else {
                match size_of_field(fields[2]) {
                    None => None,
                    Some(size) => match rest {
                        None => None,
                        Some(rows) => Some(
                            seq![
                                RowModel {
                                    path: fields[0],
                                    digest: if fields[1].len() == 0 {
                                        None
                                    } else {
                                        Some(fields[1])
                                    },
                                    size,
                                },
                            ] + rows,
                        ),
                    },
                }
            }
        }
    }
}

/// The parsed entry `e` matches the row model `m` field for field.
pub open spec fn entry_matches_row(e: RecordEntry, m: RowModel) -> bool {
    &&& decodes_to(m.path, e.path@)
    &&& match m.digest {
        None => e.digest is None,
        Some(d) => e.digest matches Some(s) && decodes_to(d, s@),
    }
    &&& match m.size {
        None => e.size is None,
        Some(n) => e.size matches Some(v) && v == n,
    }
}

/// Entry-wise correspondence of parsed entries and row models.
pub open spec fn entries_match_rows(es: Seq<RecordEntry>, ms: Seq<RowModel>) -> bool {
    es.len() == ms.len() && forall|i: int|
        0 <= i < ms.len() ==> entry_matches_row(#[trigger] es[i], ms[i])
}

/// Parses the rows from line `i` on.
fn rows_from(lines: &Vec<Vec<u8>>, i: usize) -> (r: Result<Vec<RecordEntry>, String>)
    requires
        i <= lines@.len(),
    ensures
        match rows_model(lines.deep_view(), i as int) {
            None => r is Err,
            Some(ms) => r matches Ok(es) && entries_match_rows(es@, ms),
        },
    decreases lines@.len() - i,
{
    if i == lines.len() {
        let empty: Vec<RecordEntry> = Vec::new();
        return Ok(empty);
    }
    proof {
        assert(lines.deep_view()[i as int] == lines@[i as int]@);
    }
    let raw = &lines[i];
    let line_end = if raw.len() > 0 && raw[raw.len() - 1] == 13 {
        raw.len() - 1
    } else {
        raw.len()
    };
    let ghost line_g = strip_cr(lines.deep_view()[i as int]);
    proof {
        assert(raw@.subrange(0, line_end as int) =~= line_g);
    }
    let line = sub_bytes(raw.as_slice(), 0, line_end);
    let rest = rows_from(lines, i + 1);
    if line.len() == 0 {
        return rest;
    }
    let fields = split_vec(line.as_slice(), 44);
    proof {
        assert(fields.deep_view() == split_bytes(line_g, 44));
        assert forall|j: int| 0 <= j < fields@.len() implies fields@[j]@ == split_bytes(
            line_g,
            44,
        )[j] by {
            assert(fields.deep_view()[j] == fields@[j]@);
        }
    }
    if fields.len() != 3 {
        return Err("expected three comma-separated RECORD columns".to_owned());
    }
    let size = match parse_size(fields[2].as_slice()) {
        Ok(sz) => sz,
        Err(e) => return Err(e),
    };
    let mut es = match rest {
        Ok(es) => es,
        Err(e) => return Err(e),
    };
    let path = range_to_string(fields[0].as_slice(), 0, fields[0].len());
    let digest = if fields[1].len() == 0 {
        None
    } else {
        Some(range_to_string(fields[1].as_slice(), 0, fields[1].len()))
    };
    proof {
        let f0 = fields@[0]@;
        let f1 = fields@[1]@;
        assert(f0.subrange(0, f0.len() as int) =~= f0);
        assert(f1.subrange(0, f1.len() as int) =~= f1);
    }
    let entry = RecordEntry { path, digest, size };
    let mut out: Vec<RecordEntry> = Vec::new();
    out.push(entry);
    let ghost es_g = es@;
    out.append(&mut es);
    proof {
        let ms = rows_model(lines.deep_view(), i as int).unwrap();
        let rest_ms = rows_model(lines.deep_view(), i + 1).unwrap();
        assert forall|j: int| 0 <= j < ms.len() implies entry_matches_row(out@[j], ms[j]) by {
            if j > 0 {
                assert(out@[j] == es_g[j - 1]);
                assert(ms[j] == rest_ms[j - 1]);
            }
        }
    }
    Ok(out)
}

/// Parses a RECORD file's bytes into its rows; any malformed row fails the
/// whole parse. Rows are plain three-column lines split at every comma: a
/// path containing a comma or a quoted field is not supported.
pub fn read_record_file(content: &[u8]) -> (r: Result<Vec<RecordEntry>, String>)
    ensures
        match rows_model(split_bytes(content@, 10), 0) {
            None => r is Err,
            Some(ms) => r matches Ok(es) && entries_match_rows(es@, ms),
        },
{
    let lines = split_vec(content, 10);
    rows_from(&lines, 0)
}

/// What the SHA-256 function returns on the given bytes; the digest depends
/// on the bytes alone.
pub uninterp spec fn sha256_of(data: Seq<u8>) -> Seq<u8>;

/// Relies on sha2::Sha256::digest: the SHA-256 digest of the input bytes,
/// a function of the bytes alone; its documented output is 32 bytes.
#[verifier::external_body]
pub fn sha256(data: &[u8]) -> (r: Vec<u8>)
    ensures
        r@ == sha256_of(data@),
        r@.len() == 32,
{
    <sha2::Sha256 as sha2::Digest>::digest(data).to_vec()
}

/// What the URL-safe unpadded base64 encoding returns on the given bytes; it
/// depends on the bytes alone.
pub uninterp spec fn b64url_of(data: Seq<u8>) -> Seq<char>;

/// A character of the URL-safe base64 alphabet.
pub open spec fn is_b64url_char(c: char) -> bool {
    ('A' <= c <= 'Z') || ('a' <= c <= 'z') || ('0' <= c <= '9') || c == '-' || c == '_'
}

/// Relies on data_encoding::BASE64URL_NOPAD.encode: the URL-safe unpadded
/// base64 rendering of the input bytes, a function of the bytes alone; its
/// documented encoded length without padding is four characters for every
/// three bytes, rounded up.
#[verifier::external_body]
pub fn b64url(data: &[u8]) -> (r: String)
    ensures
        r@ == b64url_of(data@),
        r@.len() == (data@.len() * 4 + 2) / 3,
        forall|i: int| 0 <= i < r@.len() ==> is_b64url_char(#[trigger] r@[i]),
{
    data_encoding::BASE64URL_NOPAD.encode(data)
}

/// The digest column an intact file must carry: `sha256:` followed by the
/// URL-safe unpadded base64 rendering of the content's SHA-256 digest.
pub open spec fn digest_column_of(data: Seq<u8>) -> Seq<char> {
    "sha256:"@ + b64url_of(sha256_of(data))
}

/// Recomputes a file's digest column from its content.
pub fn expected_digest(data: &[u8]) -> (r: String)
    ensures
        r@ == digest_column_of(data@),
{
    let d = sha256(data);
    let enc = b64url(d.as_slice());
    let mut s = "sha256:".to_owned();
    s.append(enc.as_str());
    s
}

/// The first row whose path is `path`.
pub open spec fn record_find(rows: Seq<RecordEntry>, path: Seq<char>, i: int) -> Option<
    RecordEntry,
>
    decreases rows.len() - i,
{
    if !(0 <= i < rows.len()) {
        None
    } else if rows[i].path@ == path {
        Some(rows[i])
    } else {
        record_find(rows, path, i + 1)
    }
}

/// Verifies one archive member against the RECORD rows: there must be a row
/// for its path, that row must carry a digest, and the digest must equal the
/// recomputed content digest. `Ok` exactly when all three hold.
pub fn check_record_digest(records: &Vec<RecordEntry>, path: &str, data: &[u8]) -> (r: Result<
    (),
    String,
>)
    ensures
        r is Ok <==> (record_find(records@, path@, 0) matches Some(e) && e.digest matches Some(d)
            && d@ == digest_column_of(data@)),
{
    let expected = expected_digest(data);
    let mut i: usize = 0;
    while i < records.len()
        invariant
            i <= records@.len(),
            expected@ == digest_column_of(data@),
            record_find(records@, path@, 0) == record_find(records@, path@, i as int),
        decreases records@.len() - i,
    {
        if str_eq(records[i].path.as_str(), path) {
            match &records[i].digest {
                Some(d) => {
                    if str_eq(d.as_str(), expected.as_str()) {
                        return Ok(());
                    } else {
                        return Err("RECORD digest does not match file contents".to_owned());
                    }
                },
                None => {
                    return Err("RECORD row carries no digest".to_owned());
                },
            }
        }
        i = i + 1;
    }
    Err("file has no RECORD row".to_owned())
}

} // verus!
