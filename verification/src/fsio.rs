//! Trusted wrappers around the filesystem calls the library makes. Every
//! result depends on what is on disk, so the contracts state only what holds
//! of every outcome; the verified callers take the results as arguments.
use vstd::prelude::*;

verus! {

/// Relies on fs_err::read: returns the named file's bytes, or the rendered
/// error chain, outermost message first.
#[verifier::external_body]
pub fn fs_read(path: &str) -> (r: Result<Vec<u8>, Vec<String>>)
{
    match fs_err::read(path) {
        Ok(v) => Ok(v),
        Err(e) => {
            let mut msgs = vec![e.to_string()];
            let mut cur: &dyn std::error::Error = &e;
            while let Some(next) = cur.source() {
                msgs.push(next.to_string());
                cur = next;
            }
            Err(msgs)
        },
    }
}

/// Relies on fs_err::write: creates or truncates the named file with the
/// given bytes; the error is its rendered message.
#[verifier::external_body]
pub fn fs_write(path: &str, contents: &[u8]) -> (r: Result<(), String>)
{
    match fs_err::write(path, contents) {
        Ok(()) => Ok(()),
        Err(e) => Err(e.to_string()),
    }
}

/// Relies on fs_err::create_dir_all: creates the named directory and its
/// missing parents; the error is its rendered message.
#[verifier::external_body]
pub fn fs_create_dir_all(path: &str) -> (r: Result<(), String>)
{
    match fs_err::create_dir_all(path) {
        Ok(()) => Ok(()),
        Err(e) => Err(e.to_string()),
    }
}

/// Relies on fs_err::remove_file: removes the named file.
#[verifier::external_body]
pub fn fs_remove_file(path: &str) -> (r: Result<(), String>)
{
    match fs_err::remove_file(path) {
        Ok(()) => Ok(()),
        Err(e) => Err(e.to_string()),
    }
}

/// Relies on fs_err::metadata: reports whether the named path exists.
#[verifier::external_body]
pub fn fs_exists(path: &str) -> (r: bool)
{
    fs_err::metadata(path).is_ok()
}

/// Relies on fs_err::canonicalize: resolves the named path; the error is its
/// rendered message. A path that does not decode as UTF-8 is reported as if
/// it were unreadable.
#[verifier::external_body]
pub fn fs_canonicalize(path: &str) -> (r: Result<String, String>)
{
    match fs_err::canonicalize(path) {
        Ok(p) => match p.into_os_string().into_string() {
            Ok(s) => Ok(s),
            Err(_) => Err("canonical path is not valid UTF-8".to_string()),
        },
        Err(e) => Err(e.to_string()),
    }
}

/// Relies on fs_err::OpenOptions (create + write) and std's File::try_lock:
/// opens or creates the named file and takes the operating system's advisory
/// exclusive lock on the open handle. `Ok(Some(handle))` holds the lock,
/// which the OS releases when the handle closes — on scope exit and on
/// process death alike; `Ok(None)` means the lock could not be taken (held
/// elsewhere, or the platform refused it); the error is the open failure's
/// rendered message.
#[verifier::external_body]
pub fn fs_open_locked(path: &str) -> (r: Result<Option<fs_err::File>, String>)
{
    let f = match fs_err::OpenOptions::new().write(true).create(true).open(path) {
        Ok(f) => f,
        Err(e) => return Err(e.to_string()),
    };
    match f.file().try_lock() {
        Ok(()) => Ok(Some(f)),
        Err(_) => Ok(None),
    }
}

} // verus!
