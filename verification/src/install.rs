//! Installing a wheel into a locked environment: the archive is opened, every
//! member is verified against the RECORD manifest before anything is written,
//! members are relocated under the environment's roots, provenance metadata
//! is recorded, and the installed tag is returned. A failure after writing
//! began removes what was written, so a half-written package never appears
//! complete.
use vstd::prelude::*;

verus! {

use vstd::string::StringSliceAdditionalSpecFns;
use vstd::utf8::valid_utf8;
use vstd::utf8::decode_utf8;
use crate::bytes::dec_rep;
use crate::bytes::usize_to_string;
use crate::bytes::range_to_string;
use crate::bytes::sub_bytes;
use crate::bytes::str_eq;
use crate::bytes::starts_with_at;
use crate::bytes::slice_starts_with;
use crate::bytes::bytes_eq;
use crate::bytes::trimmed;
use crate::bytes::trim_range;
use crate::fsio::fs_write;
use crate::fsio::fs_create_dir_all;
use crate::fsio::fs_remove_file;
use crate::fsio::fs_exists;
use crate::fsio::fs_canonicalize;
use crate::fsio::fs_open_locked;
use crate::record::read_record_file;
use crate::record::check_record_digest;
use crate::requirements_txt::last_slash;
use crate::wheel_tags::Os;
use crate::wheel_tags::Arch;
use crate::wheel_tags::WheelFilename;
use crate::wheel_tags::CompatibleTags;
use crate::wheel_tags::wheel_parts_of;
use crate::wheel_tags::tag_triple_string;
use crate::wheel_tags::tag_render;
use crate::wheel_tags::wheel_matches_parts;
use crate::wheel_tags::matches_at_rank;
use crate::wheel_tags::no_match;
use crate::wheel_tags::tags_model;

/// Error installing a wheel.
#[derive(Debug)]
pub enum Error {
    /// A filesystem operation failed; the rendered cause chain.
    IO { chain: Vec<String> },
    /// The archive could not be opened or read.
    Zip { file: String, message: String },
    /// The wheel's filename does not follow the
    /// `{name}-{version}(-{build})?-{python}-{abi}-{platform}.whl` schema.
    InvalidWheelFileName { name: String, message: String },
    /// No element of the wheel's tag cross product appears in the
    /// environment's tag list.
    IncompatibleWheel { os: Os, arch: Arch },
    /// The RECORD manifest is missing, malformed, or does not match the
    /// archive's contents.
    RecordFile { message: String },
    /// The environment misses its expected layout.
    BrokenVenv { message: String },
    /// The environment is already locked by another installer.
    Locked { message: String },
    /// The running platform could not be identified.
    PlatformDetection { message: String },
}

#[verifier::external_type_specification]
#[verifier::external_body]
#[verifier::reject_recursive_types(R)]
pub struct ExZipArchive<R>(zip::ZipArchive<R>);

#[verifier::external_type_specification]
#[verifier::external_body]
pub struct ExFsFile(fs_err::File);

/// Relies on fs_err::File::open: opens the named file for reading.
#[verifier::external_body]
fn file_open(path: &str) -> (r: Result<fs_err::File, String>)
{
    match fs_err::File::open(path) {
        Ok(f) => Ok(f),
        Err(e) => Err(e.to_string()),
    }
}

/// Relies on zip::ZipArchive::new: reads the archive's central directory,
/// failing on corruption.
#[verifier::external_body]
fn zip_new(f: fs_err::File) -> (r: Result<zip::ZipArchive<fs_err::File>, String>)
{
    match zip::ZipArchive::new(f) {
        Ok(a) => Ok(a),
        Err(e) => Err(e.to_string()),
    }
}

/// Relies on zip::ZipArchive::len: how many members the archive holds.
#[verifier::external_body]
fn zip_len(ar: &zip::ZipArchive<fs_err::File>) -> (r: usize)
{
    ar.len()
}

/// Relies on zip::ZipArchive::name_for_index: the member's declared name.
#[verifier::external_body]
fn zip_name(ar: &zip::ZipArchive<fs_err::File>, i: usize) -> (r: Option<String>)
{
    ar.name_for_index(i).map(|s| s.to_owned())
}

/// Relies on zip::ZipArchive::by_index and std's Read::read_to_end: the
/// member's decompressed bytes.
#[verifier::external_body]
fn zip_read(ar: &mut zip::ZipArchive<fs_err::File>, i: usize) -> (r: Result<Vec<u8>, String>)
{
    match ar.by_index(i) {
        Ok(mut f) => {
            let mut buf = Vec::new();
            match std::io::Read::read_to_end(&mut f, &mut buf) {
                Ok(_) => Ok(buf),
                Err(e) => Err(e.to_string()),
            }
        },
        Err(e) => Err(e.to_string()),
    }
}

/// Identifies a target environment: paths only.
#[derive(Debug, PartialEq, Eq)]
pub enum InstallLocation {
    /// A single-version virtual environment rooted at `venv_base`, with the
    /// interpreter's `(major, minor)` version.
    Venv { venv_base: String, python_version: (u8, u8) },
}

/// The filename of the advisory lock inside the environment.
pub open spec fn lock_file_name() -> Seq<char> {
    "/.install.lock"@
}

impl InstallLocation {
    /// The environment's root directory.
    pub open spec fn base_spec(&self) -> Seq<char> {
        match self {
            InstallLocation::Venv { venv_base, .. } => venv_base@,
        }
    }

    /// The environment's root directory.
    pub fn base(&self) -> (r: &String)
        ensures
            r@ == self.base_spec(),
    {
        match self {
            InstallLocation::Venv { venv_base, .. } => venv_base,
        }
    }

    /// The `site-packages` directory packages are copied into.
    pub fn site_packages_dir(&self) -> (r: String)
        ensures
            match self {
                InstallLocation::Venv { venv_base, python_version } => r@ == venv_base@
                    + "/lib/python"@ + dec_rep(python_version.0 as nat) + "."@ + dec_rep(
                    python_version.1 as nat,
                ) + "/site-packages"@,
            },
    {
        match self {
            InstallLocation::Venv { venv_base, python_version } => {
                let mut s = venv_base.clone();
                s.append("/lib/python");
                let ma = usize_to_string(python_version.0 as usize);
                s.append(ma.as_str());
                s.append(".");
                let mi = usize_to_string(python_version.1 as usize);
                s.append(mi.as_str());
                s.append("/site-packages");
                s
            },
        }
    }

    /// The directory launcher scripts go into.
    pub fn scripts_dir(&self) -> (r: String)
        ensures
            r@ == self.base_spec() + "/bin"@,
    {
        let mut s = self.base().clone();
        s.append("/bin");
        s
    }

    /// Acquires the environment's exclusive lock, failing with a
    /// broken-environment error when the expected layout (the `pyvenv.cfg`
    /// marker) is absent. The lock is the operating system's advisory
    /// exclusive lock on an open handle to the lock file, so a killed
    /// installer releases it and a retry is safe; the lock file itself may
    /// remain, it carries no state. The policy is fail-fast: a second
    /// acquisition while one is held fails immediately with
    /// [`Error::Locked`] rather than blocking. Release is automatic when the
    /// returned [`LockedDir`] goes out of scope, on every exit path.
    pub fn acquire_lock(&self) -> (r: Result<LockedDir, Error>)
        ensures
            r matches Ok(l) ==> l.location == *self && l.lock_path@ == self.base_spec()
                + lock_file_name(),
            r matches Err(e) ==> e is BrokenVenv || e is Locked || e is IO,
    {
        let mut marker = self.base().clone();
        marker.append("/pyvenv.cfg");
        if !fs_exists(marker.as_str()) {
            let mut m = "expected a virtualenv marker at ".to_owned();
            m.append(marker.as_str());
            return Err(Error::BrokenVenv { message: m });
        }
        let mut lock_path = self.base().clone();
        lock_path.append("/.install.lock");
        let loc_copy = match self {
            InstallLocation::Venv { venv_base, python_version } => InstallLocation::Venv {
                venv_base: venv_base.clone(),
                python_version: (python_version.0, python_version.1),
            },
        };
        match fs_open_locked(lock_path.as_str()) {
            Ok(Some(handle)) => Ok(LockedDir { location: loc_copy, lock_path, handle }),
            Ok(None) => {
                let mut m = "another installer holds ".to_owned();
                m.append(lock_path.as_str());
                Err(Error::Locked { message: m })
            },
            Err(m) => Err(Error::IO { chain: vec![m] }),
        }
    }
}

/// A capability token proving exclusive mutation rights over an
/// [`InstallLocation`]: it holds the open handle carrying the OS advisory
/// lock, which is released when the token goes out of scope — on success, on
/// failure, and on process death alike.
#[derive(Debug)]
pub struct LockedDir {
    /// The locked environment.
    pub location: InstallLocation,
    /// The lock file's path.
    pub lock_path: String,
    /// The open handle holding the advisory lock.
    pub handle: fs_err::File,
}

/// The shebang placeholder written into launcher scripts of relocatable
/// installs, resolved at run time.
pub const MONOTRAIL_SCRIPT_SHEBANG: &'static str = "#!/usr/bin/env monotrail-python";

/// The launcher stub text for a console entry point `module:function`, under
/// the given shebang line.
pub open spec fn script_launcher_text(module: Seq<char>, function: Seq<char>, shebang: Seq<char>) -> Seq<char> {
    shebang + "\n# -*- coding: utf-8 -*-\nimport sys\nfrom "@ + module + " import "@ + function
        + "\nif __name__ == \"__main__\":\n    sys.exit("@ + function + "())\n"@
}

/// Synthesizes a launcher stub that imports `module` and runs `function`,
/// embedding the given shebang line.
pub fn get_script_launcher(module: &str, function: &str, shebang: &str) -> (r: String)
    ensures
        r@ == script_launcher_text(module@, function@, shebang@),
{
    let mut s = shebang.to_owned();
    s.append("\n# -*- coding: utf-8 -*-\nimport sys\nfrom ");
    s.append(module);
    s.append(" import ");
    s.append(function);
    s.append("\nif __name__ == \"__main__\":\n    sys.exit(");
    s.append(function);
    s.append("())\n");
    s
}

/// One declared entry point: script name, module, and function, as bytes of
/// the `entry_points.txt` row `name = module:function`.
pub ghost struct EntryPointModel {
    /// The launcher script's name.
    pub name: Seq<u8>,
    /// The module to import.
    pub module: Seq<u8>,
    /// The function to run.
    pub function: Seq<u8>,
}

/// The launcher rows of an entry-points file from line `i` on: rows inside a
/// `[console_scripts]` or `[gui_scripts]` section, each `name =
/// module:function` with surrounding whitespace dropped and a trailing
/// `[extras]` marker cut off the function; rows without `=` or `:` or with an
/// empty field are skipped. `active` says whether the current section is one
/// of the two launcher sections.
pub open spec fn entry_points_model(lines: Seq<Seq<u8>>, i: int, active: bool) -> Seq<
    EntryPointModel,
>
    decreases lines.len() - i,
{
    if !(0 <= i < lines.len()) {
        seq![]
    } else {
        let line = trimmed(crate::record::strip_cr(lines[i]));
        if line == "[console_scripts]".spec_bytes() || line == "[gui_scripts]".spec_bytes() {
            entry_points_model(lines, i + 1, true)
        } else if line.len() > 0 && line[0] == 91 {
            entry_points_model(lines, i + 1, false)
        } else if active {
            let rest = entry_points_model(lines, i + 1, active);
            let eq = crate::cursor::find2(line, 0, 61, 61);
            if eq == line.len() {
                rest
            } else {
                let name = trimmed(line.subrange(0, eq));
                let value = trimmed(line.subrange(eq + 1, line.len() as int));
                let colon = crate::cursor::find2(value, 0, 58, 58);
                if colon == value.len() {
                    rest
                } else {
                    let module = trimmed(value.subrange(0, colon));
                    let fpart = value.subrange(colon + 1, value.len() as int);
                    let func = trimmed(
                        fpart.subrange(0, crate::cursor::find2(fpart, 0, 91, 91)),
                    );
                    if name.len() > 0 && module.len() > 0 && func.len() > 0 {
                        seq![EntryPointModel { name, module, function: func }] + rest
                    } else {
                        rest
                    }
                }
            }
        } else {
            entry_points_model(lines, i + 1, active)
        }
    }
}

/// The parsed triples decode the model's rows, field for field.
pub open spec fn entry_points_match(
    ms: Seq<EntryPointModel>,
    v: Seq<(String, String, String)>,
) -> bool {
    v.len() == ms.len() && forall|j: int|
        0 <= j < ms.len() ==> crate::wheel_tags::decodes_to(#[trigger] ms[j].name, v[j].0@)
            && crate::wheel_tags::decodes_to(ms[j].module, v[j].1@)
            && crate::wheel_tags::decodes_to(ms[j].function, v[j].2@)
}

/// Trims a slice and decodes the trimmed range.
fn trimmed_string(b: &[u8]) -> (r: (String, usize))
    ensures
        crate::wheel_tags::decodes_to(trimmed(b@), r.0@),
        r.1 == trimmed(b@).len(),
{
    let (lo, hi) = trim_range(b);
    let s = range_to_string(b, lo, hi);
    (s, hi - lo)
}

/// Parses the launcher rows from line `i` on (see [`entry_points_model`]).
#[verifier::rlimit(30)]
fn entry_points_from(lines: &Vec<Vec<u8>>, i: usize, active: bool) -> (r: Vec<
    (String, String, String),
>)
    requires
        i <= lines@.len(),
    ensures
        entry_points_match(entry_points_model(lines.deep_view(), i as int, active), r@),
    decreases lines@.len() - i,
{
    if i == lines.len() {
        let out: Vec<(String, String, String)> = Vec::new();
        return out;
    }
    proof {
        assert(lines.deep_view()[i as int] == lines@[i as int]@);
    }
    let raw = &lines[i];
    let cr_end = if raw.len() > 0 && raw[raw.len() - 1] == 13 {
        raw.len() - 1
    } else {
        raw.len()
    };
    let line0 = sub_bytes(raw.as_slice(), 0, cr_end);
    proof {
        assert(line0@ =~= crate::record::strip_cr(lines.deep_view()[i as int]));
    }
    let (tl, th) = trim_range(line0.as_slice());
    let tline = sub_bytes(line0.as_slice(), tl, th);
    let ghost line_g = trimmed(crate::record::strip_cr(lines.deep_view()[i as int]));
    proof {
        assert(tline@ == line_g);
    }
    if bytes_eq(tline.as_slice(), "[console_scripts]".as_bytes()) || bytes_eq(
        tline.as_slice(),
        "[gui_scripts]".as_bytes(),
    ) {
        return entry_points_from(lines, i + 1, true);
    }
    if tline.len() > 0 && tline[0] == 91 {
        return entry_points_from(lines, i + 1, false);
    }
    if !active {
        return entry_points_from(lines, i + 1, active);
    }
    let rest = entry_points_from(lines, i + 1, active);
    let eq = crate::bytes::find_in_slice(tline.as_slice(), 0, 61, 61);
    if eq == tline.len() {
        return rest;
    }
    let nb = sub_bytes(tline.as_slice(), 0, eq);
    let (name_s, name_len) = trimmed_string(nb.as_slice());
    let vb = sub_bytes(tline.as_slice(), eq + 1, tline.len());
    let (vl, vh) = trim_range(vb.as_slice());
    let value = sub_bytes(vb.as_slice(), vl, vh);
    proof {
        assert(nb@ == line_g.subrange(0, eq as int));
        assert(vb@ == line_g.subrange(eq + 1, line_g.len() as int));
        assert(value@ == trimmed(line_g.subrange(eq + 1, line_g.len() as int)));
    }
    let colon = crate::bytes::find_in_slice(value.as_slice(), 0, 58, 58);
    if colon == value.len() {
        return rest;
    }
    let mb = sub_bytes(value.as_slice(), 0, colon);
    let (module_s, module_len) = trimmed_string(mb.as_slice());
    let fpart = sub_bytes(value.as_slice(), colon + 1, value.len());
    let fe = crate::bytes::find_in_slice(fpart.as_slice(), 0, 91, 91);
    let fb = sub_bytes(fpart.as_slice(), 0, fe);
    let (func_s, func_len) = trimmed_string(fb.as_slice());
    proof {
        assert(mb@ == value@.subrange(0, colon as int));
        assert(fpart@ == value@.subrange(colon + 1, value@.len() as int));
        assert(fb@ == fpart@.subrange(0, crate::cursor::find2(fpart@, 0, 91, 91)));
    }
    if name_len == 0 || module_len == 0 || func_len == 0 {
        return rest;
    }
    let mut out: Vec<(String, String, String)> = Vec::new();
    out.push((name_s, module_s, func_s));
    let mut rest2 = rest;
    let ghost rest_g = rest2@;
    out.append(&mut rest2);
    proof {
        let ms = entry_points_model(lines.deep_view(), i as int, active);
        let rest_ms = entry_points_model(lines.deep_view(), i + 1, active);
        let eqg = crate::cursor::find2(line_g, 0, 61, 61);
        let name_g = trimmed(line_g.subrange(0, eqg));
        let value_g = trimmed(line_g.subrange(eqg + 1, line_g.len() as int));
        let colon_g = crate::cursor::find2(value_g, 0, 58, 58);
        let module_g = trimmed(value_g.subrange(0, colon_g));
        let fpart_g = value_g.subrange(colon_g + 1, value_g.len() as int);
        let func_g = trimmed(fpart_g.subrange(0, crate::cursor::find2(fpart_g, 0, 91, 91)));
        assert(ms == seq![EntryPointModel { name: name_g, module: module_g, function: func_g }]
            + rest_ms);
        assert forall|j: int| 0 <= j < ms.len() implies crate::wheel_tags::decodes_to(
            #[trigger] ms[j].name,
            out@[j].0@,
        ) && crate::wheel_tags::decodes_to(ms[j].module, out@[j].1@)
            && crate::wheel_tags::decodes_to(ms[j].function, out@[j].2@) by {
            if j > 0 {
                assert(out@[j] == rest_g[j - 1]);
                assert(ms[j] == rest_ms[j - 1]);
            } else {
                assert(ms[0] == (EntryPointModel {
                    name: name_g,
                    module: module_g,
                    function: func_g,
                }));
                assert(out@[0] == (name_s, module_s, func_s));
            }
        }
        assert(entry_points_match(ms, out@));
    }
    out
}

/// Parses an `entry_points.txt` file's launcher rows: the `name =
/// module:function` rows of its `[console_scripts]` and `[gui_scripts]`
/// sections, in encounter order.
pub fn parse_entry_points(content: &[u8]) -> (r: Vec<(String, String, String)>)
    ensures
        entry_points_match(
            entry_points_model(crate::wheel_tags::split_bytes(content@, 10), 0, false),
            r@,
        ),
{
    let lines = crate::wheel_tags::split_vec(content, 10);
    entry_points_from(&lines, 0, false)
}

/// The two bytes `..`.
pub open spec fn dotdot() -> Seq<u8> {
    seq![46u8, 46u8]
}

/// The two bytes of [`dotdot`].
fn lit_dotdot() -> (r: Vec<u8>)
    ensures
        r@ == dotdot(),
{
    let mut v: Vec<u8> = Vec::new();
    v.push(46);
    v.push(46);
    proof {
        assert(v@ =~= dotdot());
    }
    v
}

/// `lit` occurs somewhere in `s`.
pub open spec fn contains_lit_at(s: Seq<u8>, lit: Seq<u8>) -> bool {
    exists|i: int| 0 <= i && starts_with_at(s, i, lit)
}

/// Executable check for [`contains_lit_at`].
fn contains_lit(s: &[u8], lit: &[u8]) -> (r: bool)
    requires
        lit@.len() > 0,
    ensures
        r == contains_lit_at(s@, lit@),
{
    let n = s.len();
    let mut i: usize = 0;
    loop
        invariant
            i <= n,
            n == s@.len(),
            forall|j: int| 0 <= j < i ==> !starts_with_at(s@, j, lit@),
        ensures
            i == n,
        decreases n - i,
    {
        if i == n {
            break;
        }
        if slice_starts_with(s, i, lit) {
            return true;
        }
        i = i + 1;
    }
    proof {
        if contains_lit_at(s@, lit@) {
            let k = choose|k: int| 0 <= k && starts_with_at(s@, k, lit@);
            assert(k + lit@.len() <= s@.len());
            assert(false);
        }
    }
    false
}

/// The filename part of a `/`-separated path.
pub open spec fn base_of(pb: Seq<u8>) -> Seq<u8> {
    pb.subrange(last_slash(pb) + 1, pb.len() as int)
}

/// Bounds of [`last_slash`].
pub proof fn lemma_last_slash(pb: Seq<u8>)
    ensures
        -1 <= last_slash(pb) < pb.len(),
    decreases pb.len(),
{
    if pb.len() > 0 && pb[pb.len() - 1] != 47 {
        lemma_last_slash(pb.drop_last());
    }
}

/// The filename part of a path: everything after the last `/`.
pub fn basename(path: &str) -> (r: String)
    ensures
        valid_utf8(base_of(path.spec_bytes())) ==> r@ == decode_utf8(base_of(path.spec_bytes())),
{
    let pb = path.as_bytes();
    proof {
        assert(pb@.subrange(0, pb@.len() as int) =~= pb@);
    }
    let mut i: usize = pb.len();
    loop
        invariant
            i <= pb@.len(),
            last_slash(pb@) == last_slash(pb@.subrange(0, i as int)),
        ensures
            if last_slash(pb@) < 0 {
                i == 0
            } else {
                i >= 1 && last_slash(pb@) == i - 1
            },
        decreases i,
    {
        if i == 0 {
            break;
        }
        if pb[i - 1] == 47 {
            proof {
                assert(last_slash(pb@.subrange(0, i as int)) == i - 1);
            }
            break;
        }
        proof {
            assert(pb@.subrange(0, i as int).drop_last() =~= pb@.subrange(0, i - 1));
        }
        i = i - 1;
    }
    proof {
        lemma_last_slash(pb@);
    }
    range_to_string(pb, i, pb.len())
}

/// Where an archive member lands: scripts go to the scripts directory, other
/// `.data` members under the environment root, everything else under
/// `site-packages`, each keeping its path below the matched prefix.
pub fn classify_member(
    member: &str,
    data_prefix: &String,
    scripts_prefix: &String,
    site_dir: &String,
    scripts_dir: &String,
    base_dir: &String,
) -> (r: String)
    ensures
        ({
            let mb = member.spec_bytes();
            let sp = vstd::utf8::encode_utf8(scripts_prefix@);
            let dp = vstd::utf8::encode_utf8(data_prefix@);
            if starts_with_at(mb, 0, sp) {
                valid_utf8(mb.subrange(sp.len() as int, mb.len() as int)) ==> r@ == scripts_dir@
                    + "/"@ + decode_utf8(mb.subrange(sp.len() as int, mb.len() as int))
            } else if starts_with_at(mb, 0, dp) {
                valid_utf8(mb.subrange(dp.len() as int, mb.len() as int)) ==> r@ == base_dir@
                    + "/"@ + decode_utf8(mb.subrange(dp.len() as int, mb.len() as int))
            } else {
                r@ == site_dir@ + "/"@ + member@
            }
        }),
{
    let mb = member.as_bytes();
    let sp = scripts_prefix.as_str().as_bytes();
    let dp = data_prefix.as_str().as_bytes();
    if slice_starts_with(mb, 0, sp) {
        let rest = range_to_string(mb, sp.len(), mb.len());
        let mut s = scripts_dir.clone();
        s.append("/");
        s.append(rest.as_str());
        s
    } else if slice_starts_with(mb, 0, dp) {
        let rest = range_to_string(mb, dp.len(), mb.len());
        let mut s = base_dir.clone();
        s.append("/");
        s.append(rest.as_str());
        s
    } else {
        let mut s = site_dir.clone();
        s.append("/");
        s.append(member);
        s
    }
}

/// The lower-case hexadecimal digit byte for `d < 16`.
pub open spec fn hex_digit_byte(d: int) -> u8 {
    if d < 10 {
        (48 + d) as u8
    } else {
        (87 + d) as u8
    }
}

/// The bytes 34 (`"`) and 92 (`\`) escaped with a backslash, control bytes
/// (below 32) escaped as `\u00XX`; all other bytes pass through, which keeps
/// multi-byte UTF-8 sequences intact.
pub open spec fn json_escaped_bytes(s: Seq<u8>) -> Seq<u8>
    decreases s.len(),
{
    if s.len() == 0 {
        seq![]
    } else {
        (if s[0] == 34 || s[0] == 92 {
            seq![92u8, s[0]]
        } else if s[0] < 32 {
            seq![
                92u8,
                117u8,
                48u8,
                48u8,
                hex_digit_byte(s[0] as int / 16),
                hex_digit_byte(s[0] as int % 16),
            ]
        } else {
            seq![s[0]]
        }) + json_escaped_bytes(s.drop_first())
    }
}

/// Escapes a string's bytes for inclusion in a JSON string literal.
pub fn json_escape_bytes(s: &[u8]) -> (r: Vec<u8>)
    ensures
        r@ == json_escaped_bytes(s@),
    decreases s@.len(),
{
    if s.len() == 0 {
        let r: Vec<u8> = Vec::new();
        proof {
            assert(r@ =~= json_escaped_bytes(s@));
        }
        return r;
    }
    let tail = sub_bytes(s, 1, s.len());
    let rest = json_escape_bytes(tail.as_slice());
    let mut r: Vec<u8> = Vec::new();
    if s[0] == 34 || s[0] == 92 {
        r.push(92);
        r.push(s[0]);
    } else if s[0] < 32 {
        r.push(92);
        r.push(117);
        r.push(48);
        r.push(48);
        let hi = s[0] / 16;
        let lo = s[0] % 16;
        r.push(if hi < 10 { 48 + hi } else { 87 + hi });
        r.push(if lo < 10 { 48 + lo } else { 87 + lo });
    } else {
        r.push(s[0]);
    }
    let mut rest2 = rest;
    let ghost rest_g = rest2@;
    r.append(&mut rest2);
    proof {
        assert(tail@ =~= s@.drop_first());
        assert(r@ =~= json_escaped_bytes(s@));
    }
    r
}

/// The provenance (`direct_url.json`) bytes for a wheel installed from a
/// local archive path, per the packaging ecosystem's direct-URL schema.
pub open spec fn direct_url_json(url_path: Seq<u8>) -> Seq<u8> {
    "{\"archive_info\": {}, \"url\": \"file://".spec_bytes() + json_escaped_bytes(url_path)
        + "\"}".spec_bytes()
}

/// Renders the provenance metadata recording the installation source.
pub fn direct_url_bytes(url_path: &str) -> (r: Vec<u8>)
    ensures
        r@ == direct_url_json(url_path.spec_bytes()),
{
    let prefix = "{\"archive_info\": {}, \"url\": \"file://";
    let suffix = "\"}";
    let mut out = crate::bytes::sub_bytes(prefix.as_bytes(), 0, prefix.as_bytes().len());
    let mut esc = json_escape_bytes(url_path.as_bytes());
    let ghost esc_g = esc@;
    out.append(&mut esc);
    let mut sfx = crate::bytes::sub_bytes(suffix.as_bytes(), 0, suffix.as_bytes().len());
    let ghost sfx_g = sfx@;
    out.append(&mut sfx);
    proof {
        assert(prefix.spec_bytes().subrange(0, prefix.spec_bytes().len() as int) =~= prefix.spec_bytes());
        assert(suffix.spec_bytes().subrange(0, suffix.spec_bytes().len() as int) =~= suffix.spec_bytes());
        assert(out@ =~= direct_url_json(url_path.spec_bytes()));
    }
    out
}

/// The directory part of a `/`-separated path, without the trailing slash;
/// `None` when the path has no directory part.
fn dir_of(path: &str) -> (r: Option<String>)
{
    let pb = path.as_bytes();
    let mut i: usize = pb.len();
    loop
        invariant
            i <= pb@.len(),
        decreases i,
    {
        if i == 0 {
            break;
        }
        if pb[i - 1] == 47 {
            break;
        }
        i = i - 1;
    }
    if i <= 1 {
        None
    } else {
        Some(range_to_string(pb, 0, i - 1))
    }
}

/// Removes every path in `written`, ignoring individual failures: rollback
/// after a failed install, so a half-written package never appears complete.
fn rollback(written: &Vec<String>)
{
    let mut i: usize = 0;
    while i < written.len()
        decreases written@.len() - i,
    {
        let _unused = fs_remove_file(written[i].as_str());
        i = i + 1;
    }
}

/// The first index of `v` holding exactly the string `s`.
fn find_str_idx(v: &Vec<String>, s: &str) -> (r: Option<usize>)
    ensures
        r matches Some(i) ==> i < v@.len() && v.deep_view()[i as int] == s@,
        r is None ==> !v.deep_view().contains(s@),
{
    let mut i: usize = 0;
    while i < v.len()
        invariant
            i <= v@.len(),
            forall|j: int| 0 <= j < i ==> v.deep_view()[j] != s@,
        decreases v@.len() - i,
    {
        if str_eq(v[i].as_str(), s) {
            proof {
                assert(v.deep_view()[i as int] == v@[i as int]@);
            }
            return Some(i);
        }
        proof {
            assert(v.deep_view()[i as int] == v@[i as int]@);
        }
        i = i + 1;
    }
    proof {
        if v.deep_view().contains(s@) {
            let j = choose|j: int| 0 <= j < v.deep_view().len() && v.deep_view()[j] == s@;
            assert(false);
        }
    }
    None
}

/// Installs a wheel into the locked environment: opens the archive, verifies
/// every member against the RECORD manifest before anything is written,
/// relocates members under the environment's roots, records provenance
/// metadata, and returns the installed tag. A write failure removes what was
/// already written.
#[verifier::loop_isolation(false)]
pub fn install_wheel(
    location: &LockedDir,
    wheel_path: &str,
    compatible_tags: &CompatibleTags,
    os: Os,
    arch: Arch,
    interpreter: &str,
) -> (r: Result<String, Error>)
    ensures
        r matches Err(e) ==> (e matches Error::Zip { file, message } ==> file@ == wheel_path@),
        ({
            let base = base_of(wheel_path.spec_bytes());
            let parts = wheel_parts_of(base);
            &&& (valid_utf8(base) ==> ((r matches Err(e) && e is InvalidWheelFileName) <==> parts
                is None))
            &&& (r matches Err(e) ==> (e is IncompatibleWheel ==> e == (Error::IncompatibleWheel {
                os,
                arch,
            }) && (valid_utf8(base) ==> exists|w: WheelFilename|
                #[trigger] wheel_matches_parts(w, parts.unwrap()) && no_match(
                    compatible_tags.seq_view(),
                    w,
                ))))
            &&& (r matches Ok(t) ==> (valid_utf8(base) ==> exists|w: WheelFilename, i: int|
                wheel_matches_parts(w, parts.unwrap()) && #[trigger] matches_at_rank(
                    compatible_tags.seq_view(),
                    w,
                    i,
                ) && t@ == tag_render(compatible_tags.seq_view()[i])))
            &&& ((valid_utf8(base) && parts is Some && (forall|w: WheelFilename|
                #[trigger] wheel_matches_parts(w, parts.unwrap()) ==> no_match(
                    compatible_tags.seq_view(),
                    w,
                ))) ==> (r matches Err(e) && e is IncompatibleWheel))
        }),
{
    let ghost base = base_of(wheel_path.spec_bytes());
    let fname = basename(wheel_path);
    proof {
        if valid_utf8(base) {
            vstd::utf8::decode_utf8_encode_utf8(base);
            assert(vstd::utf8::encode_utf8(fname@) == base);
        }
    }
    let wf = match WheelFilename::from_filename(fname.as_str()) {
        Ok(w) => w,
        Err(m) => {
            proof {
                if valid_utf8(base) {
                    assert(vstd::utf8::encode_utf8(fname@) == base);
                    assert(wheel_parts_of(base) is None);
                }
            }
            return Err(Error::InvalidWheelFileName { name: fname, message: m });
        },
    };
    proof {
        if valid_utf8(base) {
            assert(vstd::utf8::encode_utf8(fname@) == base);
            assert(wheel_parts_of(base) is Some);
            assert(wheel_matches_parts(wf, wheel_parts_of(base).unwrap()));
        }
    }
    let rank = match wf.compatibility(compatible_tags) {
        Some(i) => i,
        None => {
            proof {
                if valid_utf8(base) {
                    assert(wheel_matches_parts(wf, wheel_parts_of(base).unwrap()));
                }
            }
            return Err(Error::IncompatibleWheel { os, arch });
        },
    };
    let tag = tag_triple_string(&compatible_tags.tags[rank]);
    proof {
        assert(compatible_tags.seq_view()[rank as int] == (
            compatible_tags.tags@[rank as int].0@,
            compatible_tags.tags@[rank as int].1@,
            compatible_tags.tags@[rank as int].2@,
        ));
        if valid_utf8(base) {
            assert(wheel_matches_parts(wf, wheel_parts_of(base).unwrap()));
        }
    }
    let f = match file_open(wheel_path) {
        Ok(f) => f,
        Err(m) => return Err(Error::Zip { file: wheel_path.to_owned(), message: m }),
    };
    let mut ar = match zip_new(f) {
        Ok(a) => a,
        Err(m) => return Err(Error::Zip { file: wheel_path.to_owned(), message: m }),
    };
    let n = zip_len(&ar);
    let mut names: Vec<String> = Vec::new();
    let mut datas: Vec<Vec<u8>> = Vec::new();
    let mut i: usize = 0;
    while i < n
        invariant
            names@.len() == datas@.len(),
        decreases n - i,
    {
        let name = match zip_name(&ar, i) {
            Some(s) => s,
            None => return Err(
                Error::Zip {
                    file: wheel_path.to_owned(),
                    message: "member name is not valid UTF-8".to_owned(),
                },
            ),
        };
        let name_bytes = name.as_str().as_bytes();
        if name_bytes.len() > 0 && name_bytes[name_bytes.len() - 1] == 47 {
            i = i + 1;
            continue;
        }
        // A member path must stay below the install roots: absolute names
        // and names holding `..` are refused before anything is written.
        if (name_bytes.len() > 0 && name_bytes[0] == 47) || crate::bytes::find_in_slice(
            name_bytes,
            0,
            46,
            46,
        ) < name_bytes.len() && {
            let dd = lit_dotdot();
            contains_lit(name_bytes, dd.as_slice())
        } {
            return Err(
                Error::Zip {
                    file: wheel_path.to_owned(),
                    message: "member path would escape the install roots".to_owned(),
                },
            );
        }
        let data = match zip_read(&mut ar, i) {
            Ok(d) => d,
            Err(m) => return Err(Error::Zip { file: wheel_path.to_owned(), message: m }),
        };
        names.push(name);
        datas.push(data);
        i = i + 1;
    }
    let mut dist_info = wf.name.clone();
    dist_info.append("-");
    dist_info.append(wf.version.as_str());
    dist_info.append(".dist-info");
    let mut record_path = dist_info.clone();
    record_path.append("/RECORD");
    let rec_idx = match find_str_idx(&names, record_path.as_str()) {
        Some(j) => j,
        None => return Err(Error::RecordFile { message: "RECORD is missing".to_owned() }),
    };
    let records = match read_record_file(datas[rec_idx].as_slice()) {
        Ok(rs) => rs,
        Err(m) => return Err(Error::RecordFile { message: m }),
    };
    let mut k: usize = 0;
    while k < names.len()
        invariant
            names@.len() == datas@.len(),
            k <= names@.len(),
        decreases names@.len() - k,
    {
        if !str_eq(names[k].as_str(), record_path.as_str()) {
            match check_record_digest(&records, names[k].as_str(), datas[k].as_slice()) {
                Ok(()) => {},
                Err(m) => {
                    let mut msg = names[k].clone();
                    msg.append(": ");
                    msg.append(m.as_str());
                    return Err(Error::RecordFile { message: msg });
                },
            }
        }
        k = k + 1;
    }
    let site = location.location.site_packages_dir();
    let scripts = location.location.scripts_dir();
    let base_dir = location.location.base().clone();
    let mut data_prefix = wf.name.clone();
    data_prefix.append("-");
    data_prefix.append(wf.version.as_str());
    data_prefix.append(".data/");
    let mut scripts_prefix = data_prefix.clone();
    scripts_prefix.append("scripts/");
    let mut written: Vec<String> = Vec::new();
    let mut w: usize = 0;
    while w < names.len()
        invariant
            names@.len() == datas@.len(),
            w <= names@.len(),
        decreases names@.len() - w,
    {
        let dest = classify_member(
            names[w].as_str(),
            &data_prefix,
            &scripts_prefix,
            &site,
            &scripts,
            &base_dir,
        );
        match dir_of(dest.as_str()) {
            Some(d) => {
                match fs_create_dir_all(d.as_str()) {
                    Ok(()) => {},
                    Err(m) => {
                        rollback(&written);
                        return Err(Error::IO { chain: vec![m] });
                    },
                }
            },
            None => {},
        }
        // The RECORD manifest is rewritten in the same shape with a row for
        // the provenance file added; every other member is copied verbatim.
        let write_result = if str_eq(names[w].as_str(), record_path.as_str()) {
            let mut rec = sub_bytes(datas[w].as_slice(), 0, datas[w].len());
            if rec.len() > 0 && rec[rec.len() - 1] != 10 {
                rec.push(10);
            }
            let mut row = dist_info.clone();
            row.append("/direct_url.json,,\n");
            crate::bytes::push_bytes(&mut rec, row.as_str().as_bytes());
            fs_write(dest.as_str(), rec.as_slice())
        } else {
            fs_write(dest.as_str(), datas[w].as_slice())
        };
        match write_result {
            Ok(()) => {},
            Err(m) => {
                rollback(&written);
                return Err(Error::IO { chain: vec![m] });
            },
        }
        written.push(dest);
        w = w + 1;
    }
    let mut ep_path = dist_info.clone();
    ep_path.append("/entry_points.txt");
    match find_str_idx(&names, ep_path.as_str()) {
        Some(ep_idx) => {
            let entry_points = parse_entry_points(datas[ep_idx].as_slice());
            let mut shebang = "#!".to_owned();
            shebang.append(interpreter);
            match fs_create_dir_all(scripts.as_str()) {
                Ok(()) => {},
                Err(m) => {
                    rollback(&written);
                    return Err(Error::IO { chain: vec![m] });
                },
            }
            let mut e: usize = 0;
            while e < entry_points.len()
                invariant
                    e <= entry_points@.len(),
                decreases entry_points@.len() - e,
            {
                let stub = get_script_launcher(
                    entry_points[e].1.as_str(),
                    entry_points[e].2.as_str(),
                    shebang.as_str(),
                );
                let mut dest = scripts.clone();
                dest.append("/");
                dest.append(entry_points[e].0.as_str());
                match fs_write(dest.as_str(), stub.as_str().as_bytes()) {
                    Ok(()) => {},
                    Err(m) => {
                        rollback(&written);
                        return Err(Error::IO { chain: vec![m] });
                    },
                }
                written.push(dest);
                e = e + 1;
            }
        },
        None => {},
    }
    let du = direct_url_bytes(wheel_path);
    let mut du_path = site.clone();
    du_path.append("/");
    du_path.append(dist_info.as_str());
    du_path.append("/direct_url.json");
    match dir_of(du_path.as_str()) {
        Some(d) => {
            match fs_create_dir_all(d.as_str()) {
                Ok(()) => {},
                Err(m) => {
                    rollback(&written);
                    return Err(Error::IO { chain: vec![m] });
                },
            }
        },
        None => {},
    }
    match fs_write(du_path.as_str(), du.as_slice()) {
        Ok(()) => {},
        Err(m) => {
            rollback(&written);
            return Err(Error::IO { chain: vec![m] });
        },
    }
    Ok(tag)
}

/// High level API: install a wheel in a virtualenv. Canonicalizes the
/// environment path, identifies the running platform, builds the venv-style
/// install location, acquires its exclusive lock (released when the install
/// returns, on every path), and runs the installer. Returns the installed
/// tag of the wheel.
pub fn install_wheel_in_venv(
    wheel: &str,
    venv: &str,
    interpreter: &str,
    major: u8,
    minor: u8,
) -> (r: Result<String, Error>)
    ensures
        r matches Err(e) ==> (e matches Error::Zip { file, message } ==> file@ == wheel@),
        ({
            let base = base_of(wheel.spec_bytes());
            let parts = wheel_parts_of(base);
            &&& (r matches Err(e) ==> (e is InvalidWheelFileName ==> (valid_utf8(base) ==> parts
                is None)))
            &&& (r matches Err(e) ==> (e is IncompatibleWheel ==> (valid_utf8(base) ==> exists|
                o: Os,
                a: Arch,
                w: WheelFilename,
            |
                wheel_matches_parts(w, parts.unwrap()) && #[trigger] no_match(
                    tags_model(o, a, major as nat, minor as nat),
                    w,
                ))))
            &&& (r matches Ok(t) ==> (valid_utf8(base) ==> exists|
                o: Os,
                a: Arch,
                w: WheelFilename,
                i: int,
            |
                wheel_matches_parts(w, parts.unwrap()) && #[trigger] matches_at_rank(
                    tags_model(o, a, major as nat, minor as nat),
                    w,
                    i,
                ) && t@ == tag_render(tags_model(o, a, major as nat, minor as nat)[i])))
        }),
{
    let venv_base = match fs_canonicalize(venv) {
        Ok(p) => p,
        Err(m) => return Err(Error::IO { chain: vec![m] }),
    };
    let (sysname, machine) = match crate::wheel_tags::platform_uname() {
        Ok(t) => t,
        Err(m) => return Err(Error::PlatformDetection { message: m }),
    };
    let os = match crate::wheel_tags::detect_os(sysname.as_str()) {
        Some(o) => o,
        None => {
            let mut m = "unsupported operating system ".to_owned();
            m.append(sysname.as_str());
            return Err(Error::PlatformDetection { message: m });
        },
    };
    let arch = match crate::wheel_tags::detect_arch(machine.as_str()) {
        Some(a) => a,
        None => {
            let mut m = "unsupported architecture ".to_owned();
            m.append(machine.as_str());
            return Err(Error::PlatformDetection { message: m });
        },
    };
    let compatible_tags = CompatibleTags::new(os, arch, major, minor);
    let location = InstallLocation::Venv { venv_base, python_version: (major, minor) };
    let locked_dir = match location.acquire_lock() {
        Ok(l) => l,
        Err(e) => return Err(e),
    };
    let r = install_wheel(&locked_dir, wheel, &compatible_tags, os, arch, interpreter);
    proof {
        let base = base_of(wheel.spec_bytes());
        let parts = wheel_parts_of(base);
        assert(compatible_tags.seq_view() == tags_model(os, arch, major as nat, minor as nat));
        if valid_utf8(base) {
            if r is Ok {
                let t = r->Ok_0;
                let (w, i) = choose|w: WheelFilename, i: int|
                    wheel_matches_parts(w, parts.unwrap()) && #[trigger] matches_at_rank(
                        compatible_tags.seq_view(),
                        w,
                        i,
                    ) && t@ == tag_render(compatible_tags.seq_view()[i]);
                assert(wheel_matches_parts(w, parts.unwrap()) && matches_at_rank(
                    tags_model(os, arch, major as nat, minor as nat),
                    w,
                    i,
                ) && t@ == tag_render(tags_model(os, arch, major as nat, minor as nat)[i]));
            } else if r->Err_0 is IncompatibleWheel {
                let w = choose|w: WheelFilename|
                    #[trigger] wheel_matches_parts(w, parts.unwrap()) && no_match(
                        compatible_tags.seq_view(),
                        w,
                    );
                assert(wheel_matches_parts(w, parts.unwrap()) && no_match(
                    tags_model(os, arch, major as nat, minor as nat),
                    w,
                ));
            }
        }
    }
    r
}

} // verus!
