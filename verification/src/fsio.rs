//! Trusted filesystem wrappers.
//!
//! Every call this library makes into the filesystem goes through one of
//! these functions.  Their results depend on the disk, so the contracts
//! state only what holds of every outcome; the verified callers take the
//! answers as arguments and do the rest.

use vstd::prelude::*;

verus! {

/// Relies on `tokio::fs::read_to_string`: the file's content as UTF-8 text,
/// or nothing when it cannot be read.
#[verifier::external_body]
pub(crate) fn read_file_string(path: &str) -> (r: Option<String>)
{
    let rt = match tokio::runtime::Builder::new_current_thread().enable_all().build() {
        Ok(rt) => rt,
        Err(_) => return None,
    };
    rt.block_on(tokio::fs::read_to_string(path)).ok()
}

/// Relies on `tokio::fs::try_exists`: whether a filesystem entry answers at
/// `path`; a failed probe counts as absent.
#[verifier::external_body]
pub(crate) fn path_exists(path: &str) -> (r: bool)
{
    let rt = match tokio::runtime::Builder::new_current_thread().enable_all().build() {
        Ok(rt) => rt,
        Err(_) => return false,
    };
    rt.block_on(tokio::fs::try_exists(path)).unwrap_or(false)
}

/// Relies on `tokio::runtime::Runtime::spawn` over `tokio::fs::try_exists`:
/// one independent existence probe per path, all launched concurrently and
/// all joined before returning, so the wall-clock cost is bounded by the
/// slowest single probe.  A failed or erroring probe counts as absent.
#[verifier::external_body]
pub(crate) fn probe_all(paths: &Vec<String>) -> (r: Vec<bool>)
    ensures
        r@.len() == paths@.len(),
{
    let rt = match tokio::runtime::Builder::new_multi_thread().enable_all().build() {
        Ok(rt) => rt,
        Err(_) => return paths.iter().map(|_| false).collect(),
    };
    let handles: Vec<_> = paths.iter().map(|p| rt.spawn(tokio::fs::try_exists(p.clone()))).collect();
    let mut out = Vec::with_capacity(handles.len());
    for h in handles {
        out.push(matches!(rt.block_on(h), Ok(Ok(true))));
    }
    out
}

/// Relies on `tokio::fs::copy`: the file at `from` is copied (not moved) to
/// `to`; reports whether the copy succeeded.
#[verifier::external_body]
pub(crate) fn copy_file(from: &str, to: &str) -> (r: bool)
{
    let rt = match tokio::runtime::Builder::new_current_thread().enable_all().build() {
        Ok(rt) => rt,
        Err(_) => return false,
    };
    rt.block_on(tokio::fs::copy(from, to)).is_ok()
}

/// Relies on `tokio::fs::metadata` and `std::time::SystemTime`: the file's
/// modification time in milliseconds since the Unix epoch, or zero when it
/// cannot be read.
#[verifier::external_body]
pub(crate) fn file_mtime_millis(path: &str) -> (r: u64)
{
    let rt = match tokio::runtime::Builder::new_current_thread().enable_all().build() {
        Ok(rt) => rt,
        Err(_) => return 0,
    };
    match rt.block_on(tokio::fs::metadata(path)).and_then(|m| m.modified()) {
        Ok(t) => t.duration_since(std::time::SystemTime::UNIX_EPOCH).map(
            |d| d.as_millis() as u64,
        ).unwrap_or(0),
        Err(_) => 0,
    }
}

/// Relies on `tokio::fs::remove_dir_all`: best-effort removal of a whole
/// directory; reports whether it succeeded.
#[verifier::external_body]
pub(crate) fn remove_dir_all(path: &str) -> (r: bool)
{
    let rt = match tokio::runtime::Builder::new_current_thread().enable_all().build() {
        Ok(rt) => rt,
        Err(_) => return false,
    };
    rt.block_on(tokio::fs::remove_dir_all(path)).is_ok()
}

/// Relies on `tokio::fs::remove_file`: best-effort removal of one file;
/// reports whether it succeeded.
#[verifier::external_body]
pub(crate) fn remove_file(path: &str) -> (r: bool)
{
    let rt = match tokio::runtime::Builder::new_current_thread().enable_all().build() {
        Ok(rt) => rt,
        Err(_) => return false,
    };
    rt.block_on(tokio::fs::remove_file(path)).is_ok()
}

/// Relies on `chrono::Utc::now`: the current time in milliseconds since the
/// Unix epoch, clamped to zero for clocks before it.
#[verifier::external_body]
pub(crate) fn now_millis() -> (r: u64)
{
    let ms = chrono::Utc::now().timestamp_millis();
    if ms < 0 {
        0
    } else {
        ms as u64
    }
}

} // verus!
