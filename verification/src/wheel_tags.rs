//! Wheel filename parsing and platform-compatibility matching: a wheel is
//! installable iff one element of the cross product of its three tag sets
//! appears in the running environment's priority-ordered tag list, and it is
//! ranked by the lowest matching index.
use vstd::prelude::*;

verus! {

use vstd::string::StringSliceAdditionalSpecFns;
use vstd::utf8::valid_utf8;
use vstd::utf8::decode_utf8;
use crate::bytes::dec_rep;
use crate::bytes::str_eq;
use crate::bytes::sub_bytes;
use crate::bytes::range_to_string;
use crate::bytes::usize_to_string;
use crate::cursor::find2;
use crate::cursor::lemma_find2;

/// The operating systems the installer supports.
#[derive(Debug, Clone, Copy, PartialEq, Eq, Structural)]
pub enum Os {
    Linux,
    Windows,
    Macos,
}

/// The processor architectures the installer supports.
#[derive(Debug, Clone, Copy, PartialEq, Eq, Structural)]
pub enum Arch {
    X86_64,
    Aarch64,
}

/// The display name of an operating system.
pub open spec fn os_name(o: Os) -> Seq<char> {
    match o {
        Os::Linux => "linux"@,
        Os::Windows => "windows"@,
        Os::Macos => "macos"@,
    }
}

/// The display name of an architecture.
pub open spec fn arch_name(a: Arch) -> Seq<char> {
    match a {
        Arch::X86_64 => "x86_64"@,
        Arch::Aarch64 => "aarch64"@,
    }
}

impl Os {
    /// The display name.
    pub fn name(&self) -> (r: String)
        ensures
            r@ == os_name(*self),
    {
        match self {
            Os::Linux => "linux".to_owned(),
            Os::Windows => "windows".to_owned(),
            Os::Macos => "macos".to_owned(),
        }
    }
}

impl Arch {
    /// The display name.
    pub fn name(&self) -> (r: String)
        ensures
            r@ == arch_name(*self),
    {
        match self {
            Arch::X86_64 => "x86_64".to_owned(),
            Arch::Aarch64 => "aarch64".to_owned(),
        }
    }
}

/// The operating system a `uname` sysname string names.
pub open spec fn os_of(sysname: Seq<char>) -> Option<Os> {
    if sysname == "Linux"@ {
        Some(Os::Linux)
    } else if sysname == "Windows_NT"@ {
        Some(Os::Windows)
    } else if sysname == "Darwin"@ {
        Some(Os::Macos)
    } else {
        None
    }
}

/// The architecture a `uname` machine string names.
pub open spec fn arch_of(machine: Seq<char>) -> Option<Arch> {
    if machine == "x86_64"@ || machine == "amd64"@ || machine == "AMD64"@ {
        Some(Arch::X86_64)
    } else if machine == "aarch64"@ || machine == "arm64"@ || machine == "ARM64"@ {
        Some(Arch::Aarch64)
    } else {
        None
    }
}

/// Maps a `uname` sysname to the operating system it names.
pub fn detect_os(sysname: &str) -> (r: Option<Os>)
    ensures
        r == os_of(sysname@),
{
    if str_eq(sysname, "Linux") {
        Some(Os::Linux)
    } else if str_eq(sysname, "Windows_NT") {
        Some(Os::Windows)
    } else if str_eq(sysname, "Darwin") {
        Some(Os::Macos)
    } else {
        None
    }
}

/// Maps a `uname` machine string to the architecture it names.
pub fn detect_arch(machine: &str) -> (r: Option<Arch>)
    ensures
        r == arch_of(machine@),
{
    if str_eq(machine, "x86_64") || str_eq(machine, "amd64") || str_eq(machine, "AMD64") {
        Some(Arch::X86_64)
    } else if str_eq(machine, "aarch64") || str_eq(machine, "arm64") || str_eq(machine, "ARM64") {
        Some(Arch::Aarch64)
    } else {
        None
    }
}

#[verifier::external_type_specification]
#[verifier::external_body]
pub struct ExPlatformInfo(platform_info::PlatformInfo);

/// Relies on platform_info::PlatformInfo::new: queries the running system;
/// the error is the rendered failure.
#[verifier::external_body]
fn platform_new() -> (r: Result<platform_info::PlatformInfo, String>)
{
    match <platform_info::PlatformInfo as platform_info::PlatformInfoAPI>::new() {
        Ok(p) => Ok(p),
        Err(e) => Err(e.to_string()),
    }
}

/// Relies on platform_info's UNameAPI::sysname: the reported operating
/// system name. It depends on the machine, so nothing more is stated.
#[verifier::external_body]
fn platform_sysname(p: &platform_info::PlatformInfo) -> (r: String)
{
    platform_info::UNameAPI::sysname(p).to_string_lossy().into_owned()
}

/// Relies on platform_info's UNameAPI::machine: the reported hardware name.
/// It depends on the machine, so nothing more is stated.
#[verifier::external_body]
fn platform_machine(p: &platform_info::PlatformInfo) -> (r: String)
{
    platform_info::UNameAPI::machine(p).to_string_lossy().into_owned()
}

/// Reports the running system's sysname and machine strings, as `uname`
/// names them; the error is the platform query's rendered failure.
pub fn platform_uname() -> (r: Result<(String, String), String>)
{
    match platform_new() {
        Ok(p) => Ok((platform_sysname(&p), platform_machine(&p))),
        Err(m) => Err(m),
    }
}

/// The parts of a byte sequence between occurrences of `sep`.
pub open spec fn split_bytes(s: Seq<u8>, sep: u8) -> Seq<Seq<u8>>
    decreases s.len(),
    via split_bytes_decreases
{
    let i = find2(s, 0, sep, sep);
    if i == s.len() {
        seq![s]
    } else {
        seq![s.subrange(0, i)] + split_bytes(s.subrange(i + 1, s.len() as int), sep)
    }
}

#[via_fn]
proof fn split_bytes_decreases(s: Seq<u8>, sep: u8) {
    lemma_find2(s, 0, sep, sep);
}

/// Splits a byte slice at `sep`.
pub fn split_vec(s: &[u8], sep: u8) -> (r: Vec<Vec<u8>>)
    ensures
        r.deep_view() == split_bytes(s@, sep),
    decreases s@.len(),
{
    proof {
        lemma_find2(s@, 0, sep, sep);
    }
    let mut i: usize = 0;
    let n: usize = s.len();
    loop
        invariant
            i <= n,
            n == s@.len(),
            find2(s@, 0, sep, sep) == find2(s@, i as int, sep, sep),
        ensures
            i == find2(s@, 0, sep, sep),
        decreases n - i,
    {
        if i < n && s[i] != sep {
            i = i + 1;
        } else {
            break;
        }
    }
    if i == n {
        let mut r: Vec<Vec<u8>> = Vec::new();
        r.push(sub_bytes(s, 0, n));
        proof {
            assert(s@.subrange(0, n as int) =~= s@);
            assert(r.deep_view() =~~= split_bytes(s@, sep));
        }
        r
    } else {
        let head = sub_bytes(s, 0, i);
        let tail = sub_bytes(s, i + 1, n);
        let rest = split_vec(tail.as_slice(), sep);
        let mut r: Vec<Vec<u8>> = Vec::new();
        r.push(head);
        let mut rest2 = rest;
        let ghost rest_v = rest2@;
        let ghost rest_g = rest2.deep_view();
        r.append(&mut rest2);
        proof {
            assert(tail@ =~= s@.subrange(i + 1, s@.len() as int));
            assert forall|j: int| 0 <= j < r.deep_view().len() implies r.deep_view()[j]
                == split_bytes(s@, sep)[j] by {
                if j > 0 {
                    assert(r@[j] == rest_v[j - 1]);
                    assert(rest_g[j - 1] == rest_v[j - 1]@);
                } else {
                    assert(r@[0] == head);
                }
            }
            assert(r.deep_view() =~~= split_bytes(s@, sep));
        }
        r
    }
}

/// The filename parts of a wheel: name, version, optional build tag, and the
/// raw bytes of its three tag sets, per the
/// `{name}-{version}(-{build})?-{python}-{abi}-{platform}.whl` schema.
pub ghost struct WheelParts {
    /// The distribution name.
    pub name: Seq<u8>,
    /// The version.
    pub version: Seq<u8>,
    /// The optional build tag.
    pub build_tag: Option<Seq<u8>>,
    /// The `.`-separated python tags.
    pub python_tag: Seq<Seq<u8>>,
    /// The `.`-separated ABI tags.
    pub abi_tag: Seq<Seq<u8>>,
    /// The `.`-separated platform tags.
    pub platform_tag: Seq<Seq<u8>>,
}

/// The `.whl` suffix bytes.
pub open spec fn whl_suffix() -> Seq<u8> {
    seq![46u8, 119u8, 104u8, 108u8]
}

/// Parses a wheel filename's bytes against the schema; `None` when the
/// suffix is wrong or the stem does not split into five or six parts.
pub open spec fn wheel_parts_of(fname: Seq<u8>) -> Option<WheelParts> {
    if fname.len() < 4 || fname.subrange(fname.len() - 4, fname.len() as int) != whl_suffix() {
        None
    } else {
        let stem = fname.subrange(0, fname.len() - 4);
        let parts = split_bytes(stem, 45);
        if parts.len() == 5 {
            Some(
                WheelParts {
                    name: parts[0],
                    version: parts[1],
                    build_tag: None,
                    python_tag: split_bytes(parts[2], 46),
                    abi_tag: split_bytes(parts[3], 46),
                    platform_tag: split_bytes(parts[4], 46),
                },
            )
        } else if parts.len() == 6 {
            Some(
                WheelParts {
                    name: parts[0],
                    version: parts[1],
                    build_tag: Some(parts[2]),
                    python_tag: split_bytes(parts[3], 46),
                    abi_tag: split_bytes(parts[4], 46),
                    platform_tag: split_bytes(parts[5], 46),
                },
            )
        } else {
            None
        }
    }
}

/// Name, version, optional build tag, and three ordered tag sets, read from
/// a wheel archive's filename.
#[derive(Debug, Clone, PartialEq, Eq)]
pub struct WheelFilename {
    /// The distribution name.
    pub name: String,
    /// The version.
    pub version: String,
    /// The optional build tag.
    pub build_tag: Option<String>,
    /// The `.`-separated python tags.
    pub python_tag: Vec<String>,
    /// The `.`-separated ABI tags.
    pub abi_tag: Vec<String>,
    /// The `.`-separated platform tags.
    pub platform_tag: Vec<String>,
}

/// The string `v` is the decoding of the bytes `b`, whenever those decode.
pub open spec fn decodes_to(b: Seq<u8>, v: Seq<char>) -> bool {
    valid_utf8(b) ==> v == decode_utf8(b)
}

/// Each string of `v` decodes the corresponding byte part.
pub open spec fn parts_decode_to(b: Seq<Seq<u8>>, v: Seq<Seq<char>>) -> bool {
    v.len() == b.len() && forall|i: int| 0 <= i < b.len() ==> decodes_to(#[trigger] b[i], v[i])
}

/// The field-wise relation between a parsed [`WheelFilename`] and the
/// filename parts it came from.
pub open spec fn wheel_matches_parts(w: WheelFilename, p: WheelParts) -> bool {
    &&& decodes_to(p.name, w.name@)
    &&& decodes_to(p.version, w.version@)
    &&& match p.build_tag {
        None => w.build_tag is None,
        Some(b) => w.build_tag matches Some(t) && decodes_to(b, t@),
    }
    &&& parts_decode_to(p.python_tag, w.python_tag.deep_view())
    &&& parts_decode_to(p.abi_tag, w.abi_tag.deep_view())
    &&& parts_decode_to(p.platform_tag, w.platform_tag.deep_view())
}

/// Decodes a vector of byte parts into strings.
fn decode_parts(parts: &Vec<Vec<u8>>) -> (r: Vec<String>)
    ensures
        parts_decode_to(parts.deep_view(), r.deep_view()),
{
    let mut r: Vec<String> = Vec::new();
    let mut i: usize = 0;
    while i < parts.len()
        invariant
            i <= parts@.len(),
            r@.len() == i,
            forall|j: int| 0 <= j < i ==> decodes_to(parts.deep_view()[j], r.deep_view()[j]),
        decreases parts@.len() - i,
    {
        let piece = range_to_string(parts[i].as_slice(), 0, parts[i].len());
        proof {
            let pv = parts[i as int]@;
            assert(pv.subrange(0, pv.len() as int) =~= pv);
            assert(parts.deep_view()[i as int] == pv);
        }
        r.push(piece);
        proof {
            assert(r@[i as int] == piece);
            assert(r.deep_view()[i as int] == piece@);
        }
        i = i + 1;
    }
    r
}

impl WheelFilename {
    /// Parses a wheel's filename against the
    /// `{name}-{version}(-{build})?-{python}-{abi}-{platform}.whl` schema;
    /// the error message names what is wrong.
    pub fn from_filename(filename: &str) -> (r: Result<WheelFilename, String>)
        ensures
            r is Ok <==> wheel_parts_of(filename.spec_bytes()) is Some,
            r matches Ok(w) ==> wheel_matches_parts(
                w,
                wheel_parts_of(filename.spec_bytes()).unwrap(),
            ),
    {
        let fb = filename.as_bytes();
        let n = fb.len();
        if n < 4 || !crate::bytes::slice_starts_with(fb, n - 4, &[46u8, 119u8, 104u8, 108u8]) {
            proof {
                assert(n >= 4 ==> fb@.subrange(n - 4, n as int) =~= fb@.subrange(
                    n - 4,
                    (n - 4) + whl_suffix().len(),
                ));
            }
            return Err("Expected a filename ending in .whl".to_owned());
        }
        proof {
            assert(fb@.subrange(n - 4, n as int) =~= fb@.subrange(
                n - 4,
                (n - 4) + whl_suffix().len(),
            ));
        }
        let stem = sub_bytes(fb, 0, n - 4);
        let parts = split_vec(stem.as_slice(), 45);
        let ghost parts_g = split_bytes(filename.spec_bytes().subrange(0, n - 4), 45);
        proof {
            assert(parts.deep_view() == parts_g);
            assert forall|j: int| 0 <= j < parts@.len() implies parts@[j]@ == parts_g[j] by {
                assert(parts.deep_view()[j] == parts@[j]@);
            }
        }
        if parts.len() == 5 {
            let name = range_to_string(parts[0].as_slice(), 0, parts[0].len());
            let version = range_to_string(parts[1].as_slice(), 0, parts[1].len());
            let python_tag = decode_parts(&split_vec(parts[2].as_slice(), 46));
            let abi_tag = decode_parts(&split_vec(parts[3].as_slice(), 46));
            let platform_tag = decode_parts(&split_vec(parts[4].as_slice(), 46));
            proof {
                assert(parts[0]@.subrange(0, parts[0]@.len() as int) =~= parts_g[0]);
                assert(parts[1]@.subrange(0, parts[1]@.len() as int) =~= parts_g[1]);
            }
            Ok(WheelFilename { name, version, build_tag: None, python_tag, abi_tag, platform_tag })
        } else if parts.len() == 6 {
            let name = range_to_string(parts[0].as_slice(), 0, parts[0].len());
            let version = range_to_string(parts[1].as_slice(), 0, parts[1].len());
            let build = range_to_string(parts[2].as_slice(), 0, parts[2].len());
            let python_tag = decode_parts(&split_vec(parts[3].as_slice(), 46));
            let abi_tag = decode_parts(&split_vec(parts[4].as_slice(), 46));
            let platform_tag = decode_parts(&split_vec(parts[5].as_slice(), 46));
            proof {
                assert(parts[0]@.subrange(0, parts[0]@.len() as int) =~= parts_g[0]);
                assert(parts[1]@.subrange(0, parts[1]@.len() as int) =~= parts_g[1]);
                assert(parts[2]@.subrange(0, parts[2]@.len() as int) =~= parts_g[2]);
            }
            Ok(
                WheelFilename {
                    name,
                    version,
                    build_tag: Some(build),
                    python_tag,
                    abi_tag,
                    platform_tag,
                },
            )
        } else {
            Err("Expected five or six dash-separated filename parts".to_owned())
        }
    }
}

/// The interpreter-specific tag `cp{major}{minor}`.
pub open spec fn cp_tag(major: nat, minor: nat) -> Seq<char> {
    "cp"@ + dec_rep(major) + dec_rep(minor)
}

/// The generic tag `py{major}{minor}`.
pub open spec fn py_mm_tag(major: nat, minor: nat) -> Seq<char> {
    "py"@ + dec_rep(major) + dec_rep(minor)
}

/// The generic tag `py{major}`.
pub open spec fn py_m_tag(major: nat) -> Seq<char> {
    "py"@ + dec_rep(major)
}

/// The platform tag strings accepted for a system, most specific first.
pub open spec fn plats_model(os: Os, arch: Arch) -> Seq<Seq<char>> {
    match (os, arch) {
        (Os::Linux, Arch::X86_64) => seq!["manylinux2014_x86_64"@, "linux_x86_64"@],
        (Os::Linux, Arch::Aarch64) => seq!["manylinux2014_aarch64"@, "linux_aarch64"@],
        (Os::Windows, Arch::X86_64) => seq!["win_amd64"@],
        (Os::Windows, Arch::Aarch64) => seq!["win_arm64"@],
        (Os::Macos, Arch::X86_64) => seq!["macosx_10_9_x86_64"@],
        (Os::Macos, Arch::Aarch64) => seq!["macosx_11_0_arm64"@],
    }
}

/// One priority block: the (python, abi) pair crossed with every platform
/// tag.
pub open spec fn block_model(py: Seq<char>, abi: Seq<char>, plats: Seq<Seq<char>>) -> Seq<
    (Seq<char>, Seq<char>, Seq<char>),
> {
    plats.map_values(|p: Seq<char>| (py, abi, p))
}

/// The priority-ordered tag list for the running environment: exact
/// interpreter tags first, then stable-ABI tags, then `none`-ABI tags, then
/// the generic `py` tags, and the `any`-platform fallbacks last.
pub open spec fn tags_model(os: Os, arch: Arch, major: nat, minor: nat) -> Seq<
    (Seq<char>, Seq<char>, Seq<char>),
> {
    let plats = plats_model(os, arch);
    block_model(cp_tag(major, minor), cp_tag(major, minor), plats) + block_model(
        cp_tag(major, minor),
        "abi3"@,
        plats,
    ) + block_model(cp_tag(major, minor), "none"@, plats) + block_model(
        py_mm_tag(major, minor),
        "none"@,
        plats,
    ) + block_model(py_m_tag(major), "none"@, plats) + seq![
        (py_mm_tag(major, minor), "none"@, "any"@),
        (py_m_tag(major), "none"@, "any"@),
    ]
}

/// The character sequences of a tag-triple vector.
pub open spec fn tags_view(v: Seq<(String, String, String)>) -> Seq<
    (Seq<char>, Seq<char>, Seq<char>),
> {
    Seq::new(v.len(), |i: int| (v[i].0@, v[i].1@, v[i].2@))
}

/// Builds `cp{major}{minor}`.
fn cp_string(major: u8, minor: u8) -> (r: String)
    ensures
        r@ == cp_tag(major as nat, minor as nat),
{
    let mut s = "cp".to_owned();
    let ma = usize_to_string(major as usize);
    s.append(ma.as_str());
    let mi = usize_to_string(minor as usize);
    s.append(mi.as_str());
    s
}

/// Builds `py{major}{minor}`.
fn py_mm_string(major: u8, minor: u8) -> (r: String)
    ensures
        r@ == py_mm_tag(major as nat, minor as nat),
{
    let mut s = "py".to_owned();
    let ma = usize_to_string(major as usize);
    s.append(ma.as_str());
    let mi = usize_to_string(minor as usize);
    s.append(mi.as_str());
    s
}

/// Builds `py{major}`.
fn py_m_string(major: u8) -> (r: String)
    ensures
        r@ == py_m_tag(major as nat),
{
    let mut s = "py".to_owned();
    let ma = usize_to_string(major as usize);
    s.append(ma.as_str());
    s
}

/// The platform tag strings for a system.
fn plats_vec(os: Os, arch: Arch) -> (r: Vec<String>)
    ensures
        r.deep_view() == plats_model(os, arch),
{
    let mut v: Vec<String> = Vec::new();
    match (os, arch) {
        (Os::Linux, Arch::X86_64) => {
            v.push("manylinux2014_x86_64".to_owned());
            v.push("linux_x86_64".to_owned());
        },
        (Os::Linux, Arch::Aarch64) => {
            v.push("manylinux2014_aarch64".to_owned());
            v.push("linux_aarch64".to_owned());
        },
        (Os::Windows, Arch::X86_64) => {
            v.push("win_amd64".to_owned());
        },
        (Os::Windows, Arch::Aarch64) => {
            v.push("win_arm64".to_owned());
        },
        (Os::Macos, Arch::X86_64) => {
            v.push("macosx_10_9_x86_64".to_owned());
        },
        (Os::Macos, Arch::Aarch64) => {
            v.push("macosx_11_0_arm64".to_owned());
        },
    }
    proof {
        assert(v.deep_view() =~~= plats_model(os, arch));
    }
    v
}

/// Appends one priority block to the tag list.
fn push_block(tags: &mut Vec<(String, String, String)>, py: &String, abi: &String, plats: &Vec<
    String,
>)
    ensures
        tags_view(final(tags)@) == tags_view(old(tags)@) + block_model(
            py@,
            abi@,
            plats.deep_view(),
        ),
{
    let ghost t0 = tags@;
    let mut i: usize = 0;
    while i < plats.len()
        invariant
            i <= plats@.len(),
            tags_view(tags@) =~= tags_view(t0) + block_model(
                py@,
                abi@,
                plats.deep_view().subrange(0, i as int),
            ),
        decreases plats@.len() - i,
    {
        let ghost prev = tags@;
        let pyc = py.clone();
        let abic = abi.clone();
        let plc = plats[i].clone();
        tags.push((pyc, abic, plc));
        proof {
            let dv = plats.deep_view();
            assert(dv[i as int] == plats@[i as int]@);
            assert(tags_view(prev).len() == prev.len());
            assert(block_model(py@, abi@, dv.subrange(0, i as int)).len() == i);
            assert(prev.len() == t0.len() + i);
            let want = tags_view(t0) + block_model(py@, abi@, dv.subrange(0, i + 1));
            assert forall|k: int| 0 <= k < tags@.len() implies tags_view(tags@)[k] == want[k] by {
                if k < prev.len() {
                    assert(tags@[k] == prev[k]);
                    assert(tags_view(prev)[k] == (tags_view(t0) + block_model(
                        py@,
                        abi@,
                        dv.subrange(0, i as int),
                    ))[k]);
                    if k >= t0.len() {
                        assert(dv.subrange(0, i as int)[k - t0.len()] == dv[k - t0.len()]);
                        assert(dv.subrange(0, i + 1)[k - t0.len()] == dv[k - t0.len()]);
                    }
                } else {
                    assert(tags@[k] == (pyc, abic, plc));
                    assert(dv.subrange(0, i + 1)[i as int] == dv[i as int]);
                }
            }
            assert(tags_view(tags@) =~= want);
        }
        i = i + 1;
    }
    proof {
        assert(plats.deep_view().subrange(0, plats.deep_view().len() as int) =~= plats.deep_view());
        assert(tags_view(tags@) =~= tags_view(t0) + block_model(py@, abi@, plats.deep_view()));
    }
}

/// Priority-ordered list of acceptable (python, abi, platform) tag triples
/// for the running environment; index is preference rank, 0 the best.
#[derive(Debug, Clone, PartialEq, Eq)]
pub struct CompatibleTags {
    /// The triples, best rank first.
    pub tags: Vec<(String, String, String)>,
}

impl CompatibleTags {
    /// The character-level view of the list.
    pub open spec fn seq_view(&self) -> Seq<(Seq<char>, Seq<char>, Seq<char>)> {
        tags_view(self.tags@)
    }

    /// Builds the tag list for an environment: interpreter version
    /// `major.minor` on `os`/`arch`, per [`tags_model`].
    pub fn new(os: Os, arch: Arch, major: u8, minor: u8) -> (r: CompatibleTags)
        ensures
            r.seq_view() == tags_model(os, arch, major as nat, minor as nat),
    {
        let cp = cp_string(major, minor);
        let py_mm = py_mm_string(major, minor);
        let py_m = py_m_string(major);
        let abi3 = "abi3".to_owned();
        let none_abi = "none".to_owned();
        let any_plat = "any".to_owned();
        let plats = plats_vec(os, arch);
        let mut tags: Vec<(String, String, String)> = Vec::new();
        push_block(&mut tags, &cp, &cp, &plats);
        push_block(&mut tags, &cp, &abi3, &plats);
        push_block(&mut tags, &cp, &none_abi, &plats);
        push_block(&mut tags, &py_mm, &none_abi, &plats);
        push_block(&mut tags, &py_m, &none_abi, &plats);
        tags.push((py_mm.clone(), none_abi.clone(), any_plat.clone()));
        tags.push((py_m, none_abi, any_plat));
        let r = CompatibleTags { tags };
        proof {
            assert(r.seq_view() =~= tags_model(os, arch, major as nat, minor as nat));
        }
        r
    }

    /// How many triples the list holds.
    pub fn len(&self) -> (r: usize)
        ensures
            r == self.seq_view().len(),
    {
        self.tags.len()
    }
}

/// The triple `t` matches a wheel whose tag sets are `py`, `abi` and `plat`:
/// each component appears in the corresponding set.
pub open spec fn tag_matches(
    t: (Seq<char>, Seq<char>, Seq<char>),
    py: Seq<Seq<char>>,
    abi: Seq<Seq<char>>,
    plat: Seq<Seq<char>>,
) -> bool {
    py.contains(t.0) && abi.contains(t.1) && plat.contains(t.2)
}

/// The triple `t` matches the wheel `w`'s three tag sets.
pub open spec fn wheel_sets_match(t: (Seq<char>, Seq<char>, Seq<char>), w: WheelFilename) -> bool {
    tag_matches(t, w.python_tag.deep_view(), w.abi_tag.deep_view(), w.platform_tag.deep_view())
}

/// `i` is the lowest (most preferred) index of `tv` whose triple matches the
/// wheel `w`.
pub open spec fn matches_at_rank(
    tv: Seq<(Seq<char>, Seq<char>, Seq<char>)>,
    w: WheelFilename,
    i: int,
) -> bool {
    &&& 0 <= i < tv.len()
    &&& wheel_sets_match(tv[i], w)
    &&& forall|j: int| 0 <= j < i ==> !(#[trigger] wheel_sets_match(tv[j], w))
}

/// No triple of `tv` matches the wheel `w`: it is incompatible with the
/// environment.
pub open spec fn no_match(tv: Seq<(Seq<char>, Seq<char>, Seq<char>)>, w: WheelFilename) -> bool {
    forall|j: int| 0 <= j < tv.len() ==> !(#[trigger] wheel_sets_match(tv[j], w))
}

/// A tag triple rendered as `python-abi-platform`.
pub open spec fn tag_render(t: (Seq<char>, Seq<char>, Seq<char>)) -> Seq<char> {
    t.0 + "-"@ + t.1 + "-"@ + t.2
}

/// Membership of a string in a vector of strings.
fn contains_str(v: &Vec<String>, s: &String) -> (r: bool)
    ensures
        r == v.deep_view().contains(s@),
{
    let mut i: usize = 0;
    while i < v.len()
        invariant
            i <= v@.len(),
            forall|j: int| 0 <= j < i ==> v.deep_view()[j] != s@,
        decreases v@.len() - i,
    {
        if str_eq(v[i].as_str(), s.as_str()) {
            proof {
                assert(v.deep_view()[i as int] == s@);
            }
            return true;
        }
        proof {
            assert(v.deep_view()[i as int] == v@[i as int]@);
        }
        i = i + 1;
    }
    proof {
        if v.deep_view().contains(s@) {
            let j = choose|j: int| 0 <= j < v.deep_view().len() && v.deep_view()[j] == s@;
            assert(false);
        }
    }
    false
}

impl WheelFilename {
    /// Whether the triple at `i` of the environment's list matches this
    /// wheel.
    fn matches_at(&self, tags: &CompatibleTags, i: usize) -> (r: bool)
        requires
            i < tags.seq_view().len(),
        ensures
            r == tag_matches(
                tags.seq_view()[i as int],
                self.python_tag.deep_view(),
                self.abi_tag.deep_view(),
                self.platform_tag.deep_view(),
            ),
    {
        let t = &tags.tags[i];
        contains_str(&self.python_tag, &t.0) && contains_str(&self.abi_tag, &t.1) && contains_str(
            &self.platform_tag,
            &t.2,
        )
    }

    /// The wheel's rank against the environment's tag list: the lowest
    /// (most preferred) index whose triple matches, or `None` when no triple
    /// does — the wheel is then incompatible with the environment.
    pub fn compatibility(&self, tags: &CompatibleTags) -> (r: Option<usize>)
        ensures
            r matches Some(i) ==> matches_at_rank(tags.seq_view(), *self, i as int),
            r is None ==> no_match(tags.seq_view(), *self),
    {
        let mut i: usize = 0;
        let n = tags.len();
        while i < n
            invariant
                i <= tags.seq_view().len(),
                n == tags.seq_view().len(),
                forall|j: int|
                    0 <= j < i ==> !tag_matches(
                        tags.seq_view()[j],
                        self.python_tag.deep_view(),
                        self.abi_tag.deep_view(),
                        self.platform_tag.deep_view(),
                    ),
            decreases tags.seq_view().len() - i,
        {
            if self.matches_at(tags, i) {
                return Some(i);
            }
            i = i + 1;
        }
        None
    }

    /// Whether the wheel is installable in the environment at all: some
    /// triple of the list matches its tag sets.
    pub fn is_compatible(&self, tags: &CompatibleTags) -> (r: bool)
        ensures
            r == !no_match(tags.seq_view(), *self),
    {
        let r = self.compatibility(tags);
        match r {
            Some(i) => {
                proof {
                    assert(wheel_sets_match(tags.seq_view()[i as int], *self));
                }
                true
            },
            None => false,
        }
    }
}

/// Renders a tag triple as `python-abi-platform`.
pub fn tag_triple_string(t: &(String, String, String)) -> (r: String)
    ensures
        r@ == tag_render((t.0@, t.1@, t.2@)),
{
    let mut s = t.0.clone();
    s.append("-");
    s.append(t.1.as_str());
    s.append("-");
    s.append(t.2.as_str());
    s
}

/// A wheel tagged `py{major}-none-any` matches the environment tag list of
/// every supported system and interpreter with that major version: the
/// list's last entry is exactly that fallback triple, so such a wheel is
/// compatible with every supported interpreter, operating system and
/// architecture combination.
pub proof fn lemma_universal_wheel_compatible(
    os: Os,
    arch: Arch,
    major: nat,
    minor: nat,
    py: Seq<Seq<char>>,
    abi: Seq<Seq<char>>,
    plat: Seq<Seq<char>>,
)
    requires
        py.contains(py_m_tag(major)),
        abi.contains("none"@),
        plat.contains("any"@),
    ensures
        exists|j: int|
            0 <= j < tags_model(os, arch, major, minor).len() && tag_matches(
                #[trigger] tags_model(os, arch, major, minor)[j],
                py,
                abi,
                plat,
            ),
{
    let m = tags_model(os, arch, major, minor);
    let j = m.len() - 1;
    assert(m[j] == (py_m_tag(major), "none"@, "any"@));
    assert(tag_matches(m[j], py, abi, plat));
}

} // verus!
