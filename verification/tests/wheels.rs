//! Scenario tests for the wheel side: filename parsing, compatibility
//! matching and ranking, RECORD parsing and integrity verification, locking,
//! and a full install into a virtualenv.
use std::io::Write;

use monotrail_core::install::get_script_launcher;
use monotrail_core::install::direct_url_bytes;
use monotrail_core::install::install_wheel_in_venv;
use monotrail_core::install::Error;
use monotrail_core::install::InstallLocation;
use monotrail_core::record::expected_digest;
use monotrail_core::record::read_record_file;
use monotrail_core::record::check_record_digest;
use monotrail_core::wheel_tags::Arch;
use monotrail_core::wheel_tags::CompatibleTags;
use monotrail_core::wheel_tags::Os;
use monotrail_core::wheel_tags::WheelFilename;
use monotrail_core::wheel_tags::detect_arch;
use monotrail_core::wheel_tags::detect_os;
use monotrail_core::wheel_tags::platform_uname;
use monotrail_core::bytes::usize_to_string;

fn scratch(name: &str) -> String {
    let dir = format!("/tmp/monotrail_core_tests/{}", name);
    let _ = fs_err::remove_dir_all(&dir);
    fs_err::create_dir_all(&dir).unwrap();
    dir
}

#[test]
fn decimal_rendering_is_exact() {
    assert_eq!(usize_to_string(0), "0");
    assert_eq!(usize_to_string(9), "9");
    assert_eq!(usize_to_string(1234), "1234");
}

#[test]
fn wheel_filename_parses_the_schema() {
    let w = WheelFilename::from_filename("numpy-1.26.0-cp39-cp39-win_amd64.whl").unwrap();
    assert_eq!(w.name, "numpy");
    assert_eq!(w.version, "1.26.0");
    assert_eq!(w.build_tag, None);
    assert_eq!(w.python_tag, vec!["cp39".to_string()]);
    assert_eq!(w.abi_tag, vec!["cp39".to_string()]);
    assert_eq!(w.platform_tag, vec!["win_amd64".to_string()]);
}

#[test]
fn wheel_filename_with_build_tag_and_compound_tags() {
    let w = WheelFilename::from_filename("demo-1.0-2-py2.py3-none-any.whl").unwrap();
    assert_eq!(w.name, "demo");
    assert_eq!(w.version, "1.0");
    assert_eq!(w.build_tag, Some("2".to_string()));
    assert_eq!(w.python_tag, vec!["py2".to_string(), "py3".to_string()]);
}

#[test]
fn wheel_filename_rejects_bad_names() {
    assert!(WheelFilename::from_filename("demo-1.0.zip").is_err());
    assert!(WheelFilename::from_filename("demo-1.0.whl").is_err());
    assert!(WheelFilename::from_filename("a-b-c-d-e-f-g.whl").is_err());
}

#[test]
fn universal_wheel_is_compatible_everywhere() {
    let w = WheelFilename::from_filename("demo-1.0-py3-none-any.whl").unwrap();
    let systems = [
        (Os::Linux, Arch::X86_64),
        (Os::Linux, Arch::Aarch64),
        (Os::Windows, Arch::X86_64),
        (Os::Windows, Arch::Aarch64),
        (Os::Macos, Arch::X86_64),
        (Os::Macos, Arch::Aarch64),
    ];
    for (os, arch) in systems {
        for minor in [8u8, 9, 10, 11, 12, 13] {
            let tags = CompatibleTags::new(os, arch, 3, minor);
            assert!(w.is_compatible(&tags), "py3-none-any must match {:?} {:?} 3.{}", os, arch, minor);
        }
    }
}

#[test]
fn interpreter_specific_wheel_matches_only_its_platform_and_version() {
    let w = WheelFilename::from_filename("demo-1.0-cp39-cp39-win_amd64.whl").unwrap();
    // Exact interpreter on the right platform: best rank.
    let right = CompatibleTags::new(Os::Windows, Arch::X86_64, 3, 9);
    assert_eq!(w.compatibility(&right), Some(0));
    // Interpreter 3.10: incompatible.
    let newer = CompatibleTags::new(Os::Windows, Arch::X86_64, 3, 10);
    assert_eq!(w.compatibility(&newer), None);
    // Another operating system: incompatible.
    let linux = CompatibleTags::new(Os::Linux, Arch::X86_64, 3, 9);
    assert_eq!(w.compatibility(&linux), None);
}

#[test]
fn ranking_prefers_exact_interpreter_over_fallbacks() {
    let tags = CompatibleTags::new(Os::Linux, Arch::X86_64, 3, 9);
    let exact = WheelFilename::from_filename("a-1-cp39-cp39-manylinux2014_x86_64.whl").unwrap();
    let abi3 = WheelFilename::from_filename("a-1-cp39-abi3-manylinux2014_x86_64.whl").unwrap();
    let universal = WheelFilename::from_filename("a-1-py3-none-any.whl").unwrap();
    let r_exact = exact.compatibility(&tags).unwrap();
    let r_abi3 = abi3.compatibility(&tags).unwrap();
    let r_universal = universal.compatibility(&tags).unwrap();
    assert!(r_exact < r_abi3, "exact interpreter outranks stable ABI");
    assert!(r_abi3 < r_universal, "stable ABI outranks the universal fallback");
}

#[test]
fn platform_detection_maps_uname_strings() {
    assert_eq!(detect_os("Linux"), Some(Os::Linux));
    assert_eq!(detect_os("Windows_NT"), Some(Os::Windows));
    assert_eq!(detect_os("Darwin"), Some(Os::Macos));
    assert_eq!(detect_os("Plan9"), None);
    assert_eq!(detect_arch("x86_64"), Some(Arch::X86_64));
    assert_eq!(detect_arch("aarch64"), Some(Arch::Aarch64));
    assert_eq!(detect_arch("mips"), None);
}

#[test]
fn record_file_parses_three_column_rows() {
    let content = b"foo/bar.py,sha256:abc,10\r\nbaz.py,,\n\n";
    let rows = read_record_file(content).unwrap();
    assert_eq!(rows.len(), 2);
    assert_eq!(rows[0].path, "foo/bar.py");
    assert_eq!(rows[0].digest, Some("sha256:abc".to_string()));
    assert_eq!(rows[0].size, Some(10));
    assert_eq!(rows[1].path, "baz.py");
    assert_eq!(rows[1].digest, None);
    assert_eq!(rows[1].size, None);
}

#[test]
fn record_file_rejects_malformed_rows() {
    assert!(read_record_file(b"only,two\n").is_err());
    assert!(read_record_file(b"a,b,notanumber\n").is_err());
    assert!(read_record_file(b"a,b,99999999999999999999999\n").is_err());
}

#[test]
fn record_digest_check_accepts_intact_and_rejects_mutated_content() {
    let data = b"print('hi')\n";
    let digest = expected_digest(data);
    let record = format!("foo/bar.py,{},12\n", digest);
    let rows = read_record_file(record.as_bytes()).unwrap();
    assert!(check_record_digest(&rows, "foo/bar.py", data).is_ok());
    // One mutated byte must no longer match.
    assert!(check_record_digest(&rows, "foo/bar.py", b"print('hj')\n").is_err());
    // A file without a row must be rejected.
    assert!(check_record_digest(&rows, "other.py", data).is_err());
}

#[test]
fn launcher_stub_embeds_shebang_and_entry_point() {
    let s = get_script_launcher("demo.cli", "main", "#!/usr/bin/python3");
    assert_eq!(
        s,
        "#!/usr/bin/python3\n# -*- coding: utf-8 -*-\nimport sys\nfrom demo.cli import main\nif __name__ == \"__main__\":\n    sys.exit(main())\n"
    );
}

#[test]
fn direct_url_json_is_byte_exact() {
    let b = direct_url_bytes("/tmp/demo-1.0.whl");
    assert_eq!(
        String::from_utf8(b).unwrap(),
        "{\"archive_info\": {}, \"url\": \"file:///tmp/demo-1.0.whl\"}"
    );
    let esc = direct_url_bytes("/tmp/we\"ird\\path.whl");
    assert_eq!(
        String::from_utf8(esc).unwrap(),
        "{\"archive_info\": {}, \"url\": \"file:///tmp/we\\\"ird\\\\path.whl\"}"
    );
    // Control characters are escaped, keeping the JSON well formed.
    let ctl = direct_url_bytes("/tmp/line\nbreak.whl");
    assert_eq!(
        String::from_utf8(ctl).unwrap(),
        "{\"archive_info\": {}, \"url\": \"file:///tmp/line\\u000abreak.whl\"}"
    );
}

fn make_venv(dir: &str) -> String {
    let venv = format!("{}/venv", dir);
    fs_err::create_dir_all(&venv).unwrap();
    fs_err::write(format!("{}/pyvenv.cfg", venv), "home = /usr/bin\n").unwrap();
    venv
}

fn write_wheel(path: &str, payload: &[u8], record_payload: &[u8]) {
    let digest = expected_digest(record_payload);
    let record = format!(
        "foo/bar.py,{},{}\ndemo-1.0.dist-info/RECORD,,\n",
        digest,
        record_payload.len()
    );
    let f = fs_err::File::create(path).unwrap();
    let mut zw = zip::ZipWriter::new(f);
    let opts: zip::write::SimpleFileOptions = Default::default();
    zw.start_file("foo/bar.py", opts).unwrap();
    zw.write_all(payload).unwrap();
    zw.start_file("demo-1.0.dist-info/RECORD", opts).unwrap();
    zw.write_all(record.as_bytes()).unwrap();
    zw.finish().unwrap();
}

fn on_supported_platform() -> bool {
    match platform_uname() {
        Ok((sysname, machine)) => {
            detect_os(&sysname).is_some() && detect_arch(&machine).is_some()
        },
        Err(_) => false,
    }
}

#[test]
fn install_verifies_and_relocates_a_wheel() {
    if !on_supported_platform() {
        return;
    }
    let dir = scratch("install-ok");
    let venv = make_venv(&dir);
    let wheel = format!("{}/demo-1.0-py3-none-any.whl", dir);
    let payload = b"print('hi')\n";
    write_wheel(&wheel, payload, payload);
    let tag = install_wheel_in_venv(&wheel, &venv, "/usr/bin/python3", 3, 11).unwrap();
    assert_eq!(tag, "py3-none-any");
    let installed = format!("{}/lib/python3.11/site-packages/foo/bar.py", venv);
    assert_eq!(fs_err::read(&installed).unwrap(), payload.to_vec());
    let provenance =
        format!("{}/lib/python3.11/site-packages/demo-1.0.dist-info/direct_url.json", venv);
    assert!(fs_err::metadata(&provenance).is_ok());
    // The lock was released on scope exit: a second install succeeds.
    assert!(install_wheel_in_venv(&wheel, &venv, "/usr/bin/python3", 3, 11).is_ok());
    let _ = fs_err::remove_dir_all(&dir);
}

#[test]
fn mutated_wheel_member_fails_and_is_not_installed() {
    if !on_supported_platform() {
        return;
    }
    let dir = scratch("install-mutated");
    let venv = make_venv(&dir);
    let wheel = format!("{}/demo-1.0-py3-none-any.whl", dir);
    // The RECORD digest is computed over different bytes than the member
    // holds, as if one byte had been flipped after RECORD was written.
    write_wheel(&wheel, b"print('hj')\n", b"print('hi')\n");
    let err = install_wheel_in_venv(&wheel, &venv, "/usr/bin/python3", 3, 11).unwrap_err();
    assert!(matches!(err, Error::RecordFile { .. }), "got {:?}", err);
    let installed = format!("{}/lib/python3.11/site-packages/foo/bar.py", venv);
    assert!(fs_err::metadata(&installed).is_err(), "the mutated file must not be installed");
    let _ = fs_err::remove_dir_all(&dir);
}

#[test]
fn incompatible_wheel_is_rejected_with_the_platform() {
    if !on_supported_platform() {
        return;
    }
    let dir = scratch("install-incompatible");
    let venv = make_venv(&dir);
    // cp39 on interpreter 3.11 never matches, whatever the platform.
    let wheel = format!("{}/demo-1.0-cp39-cp39-win_amd64.whl", dir);
    let payload = b"print('hi')\n";
    write_wheel(&wheel, payload, payload);
    let err = install_wheel_in_venv(&wheel, &venv, "/usr/bin/python3", 3, 11).unwrap_err();
    assert!(matches!(err, Error::IncompatibleWheel { .. }), "got {:?}", err);
    let _ = fs_err::remove_dir_all(&dir);
}

#[test]
fn second_lock_acquisition_fails_fast() {
    let dir = scratch("lock-policy");
    let venv = make_venv(&dir);
    let location = InstallLocation::Venv { venv_base: venv.clone(), python_version: (3, 11) };
    let first = location.acquire_lock().unwrap();
    // The documented policy is fail-fast: a second acquisition while the
    // first is held fails immediately instead of blocking.
    let second = location.acquire_lock();
    assert!(matches!(second, Err(Error::Locked { .. })));
    drop(first);
    // Release is automatic on scope exit, so the lock can be taken again.
    let third = location.acquire_lock();
    assert!(third.is_ok());
    let _ = fs_err::remove_dir_all(&dir);
}

#[test]
fn lock_requires_the_expected_layout() {
    let dir = scratch("lock-broken-venv");
    let empty = format!("{}/not-a-venv", dir);
    fs_err::create_dir_all(&empty).unwrap();
    let location = InstallLocation::Venv { venv_base: empty, python_version: (3, 11) };
    assert!(matches!(location.acquire_lock(), Err(Error::BrokenVenv { .. })));
    let _ = fs_err::remove_dir_all(&dir);
}

#[test]
fn corrupt_archive_is_a_zip_error() {
    if !on_supported_platform() {
        return;
    }
    let dir = scratch("install-corrupt-zip");
    let venv = make_venv(&dir);
    let wheel = format!("{}/demo-1.0-py3-none-any.whl", dir);
    fs_err::write(&wheel, b"this is not a zip archive").unwrap();
    let err = install_wheel_in_venv(&wheel, &venv, "/usr/bin/python3", 3, 11).unwrap_err();
    assert!(matches!(err, Error::Zip { .. }), "got {:?}", err);
    let _ = fs_err::remove_dir_all(&dir);
}

#[test]
fn misnamed_wheel_is_an_invalid_filename_error() {
    if !on_supported_platform() {
        return;
    }
    let dir = scratch("install-bad-name");
    let venv = make_venv(&dir);
    let wheel = format!("{}/demo-1.0.whl", dir);
    let payload = b"print('hi')\n";
    write_wheel(&wheel, payload, payload);
    let err = install_wheel_in_venv(&wheel, &venv, "/usr/bin/python3", 3, 11).unwrap_err();
    assert!(matches!(err, Error::InvalidWheelFileName { .. }), "got {:?}", err);
    let _ = fs_err::remove_dir_all(&dir);
}

#[test]
fn wheel_without_record_is_rejected() {
    if !on_supported_platform() {
        return;
    }
    let dir = scratch("install-no-record");
    let venv = make_venv(&dir);
    let wheel = format!("{}/demo-1.0-py3-none-any.whl", dir);
    let f = fs_err::File::create(&wheel).unwrap();
    let mut zw = zip::ZipWriter::new(f);
    let opts: zip::write::SimpleFileOptions = Default::default();
    zw.start_file("foo/bar.py", opts).unwrap();
    zw.write_all(b"print('hi')\n").unwrap();
    zw.finish().unwrap();
    let err = install_wheel_in_venv(&wheel, &venv, "/usr/bin/python3", 3, 11).unwrap_err();
    assert!(matches!(err, Error::RecordFile { .. }), "got {:?}", err);
    let installed = format!("{}/lib/python3.11/site-packages/foo/bar.py", venv);
    assert!(fs_err::metadata(&installed).is_err());
    let _ = fs_err::remove_dir_all(&dir);
}

#[test]
fn entry_points_parse_into_launcher_rows() {
    let content = b"[console_scripts]\ndemo = demo.cli:main\nweird = demo.cli:alt [extra]\n\n[gui_scripts]\ngdemo = demo.gui:run\n\n[other]\nnope = demo:no\n";
    let rows = monotrail_core::install::parse_entry_points(content);
    assert_eq!(
        rows,
        vec![
            ("demo".to_string(), "demo.cli".to_string(), "main".to_string()),
            ("weird".to_string(), "demo.cli".to_string(), "alt".to_string()),
            ("gdemo".to_string(), "demo.gui".to_string(), "run".to_string()),
        ]
    );
}

#[test]
fn install_synthesizes_entry_point_launchers() {
    if !on_supported_platform() {
        return;
    }
    let dir = scratch("install-launchers");
    let venv = make_venv(&dir);
    let wheel = format!("{}/demo-1.0-py3-none-any.whl", dir);
    let payload = b"print('hi')\n";
    let eps = b"[console_scripts]\ndemo = demo.cli:main\n";
    let record = format!(
        "foo/bar.py,{},{}\ndemo-1.0.dist-info/entry_points.txt,{},{}\ndemo-1.0.dist-info/RECORD,,\n",
        expected_digest(payload),
        payload.len(),
        expected_digest(eps),
        eps.len()
    );
    let f = fs_err::File::create(&wheel).unwrap();
    let mut zw = zip::ZipWriter::new(f);
    let opts: zip::write::SimpleFileOptions = Default::default();
    zw.start_file("foo/bar.py", opts).unwrap();
    zw.write_all(payload).unwrap();
    zw.start_file("demo-1.0.dist-info/entry_points.txt", opts).unwrap();
    zw.write_all(eps).unwrap();
    zw.start_file("demo-1.0.dist-info/RECORD", opts).unwrap();
    zw.write_all(record.as_bytes()).unwrap();
    zw.finish().unwrap();
    let tag = install_wheel_in_venv(&wheel, &venv, "/usr/bin/python3", 3, 11).unwrap();
    assert_eq!(tag, "py3-none-any");
    let launcher = fs_err::read_to_string(format!("{}/bin/demo", venv)).unwrap();
    assert_eq!(launcher, get_script_launcher("demo.cli", "main", "#!/usr/bin/python3"));
    // The rewritten RECORD gains the provenance file's row.
    let rec = fs_err::read_to_string(format!(
        "{}/lib/python3.11/site-packages/demo-1.0.dist-info/RECORD",
        venv
    ))
    .unwrap();
    assert!(rec.contains("demo-1.0.dist-info/direct_url.json,,"));
    let _ = fs_err::remove_dir_all(&dir);
}

#[test]
fn escaping_member_paths_are_rejected() {
    if !on_supported_platform() {
        return;
    }
    let dir = scratch("install-zip-slip");
    let venv = make_venv(&dir);
    let wheel = format!("{}/demo-1.0-py3-none-any.whl", dir);
    let payload = b"evil\n";
    let record = format!("../evil.py,{},5\ndemo-1.0.dist-info/RECORD,,\n", expected_digest(payload));
    let f = fs_err::File::create(&wheel).unwrap();
    let mut zw = zip::ZipWriter::new(f);
    let opts: zip::write::SimpleFileOptions = Default::default();
    zw.start_file("../evil.py", opts).unwrap();
    zw.write_all(payload).unwrap();
    zw.start_file("demo-1.0.dist-info/RECORD", opts).unwrap();
    zw.write_all(record.as_bytes()).unwrap();
    zw.finish().unwrap();
    let err = install_wheel_in_venv(&wheel, &venv, "/usr/bin/python3", 3, 11).unwrap_err();
    assert!(matches!(err, Error::Zip { .. }), "got {:?}", err);
    assert!(fs_err::metadata(format!("{}/evil.py", dir)).is_err());
    let _ = fs_err::remove_dir_all(&dir);
}
