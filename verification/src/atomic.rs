//! AtomicStore: the crash-safe single-file write primitive.
//!
//! The full new content goes into a temporary file created in the same
//! directory as the destination, is flushed, and then atomically replaces
//! the destination, so a reader never observes a truncated intermediate
//! state.  The directory computation and the error taxonomy are verified;
//! the temp-file mechanism itself relies on the `tempfile` crate.

use vstd::prelude::*;

verus! {

/// Why an atomic write failed.
#[derive(Clone, Copy, Debug, PartialEq, Eq, Structural)]
pub enum StoreError {
    /// The destination path has no parent directory; nothing was written.
    InvalidPath,
    /// Creating, filling, flushing or persisting the temporary file failed;
    /// the destination is untouched.
    Io,
}

impl StoreError {
    /// The human-readable message for this error category.
    pub fn describe(&self) -> (r: &'static str)
        ensures
            match self {
                StoreError::InvalidPath => r@ == "the destination path has no parent directory"@,
                StoreError::Io => r@ == "writing the file failed; the destination is untouched"@,
            },
    {
        match self {
            StoreError::InvalidPath => "the destination path has no parent directory",
            StoreError::Io => "writing the file failed; the destination is untouched",
        }
    }
}

/// The directory part of a path: everything before its last separator, the
/// root for a path directly under it, none for a bare file name.
pub open spec fn parent_dir(p: Seq<char>) -> Option<Seq<char>>
    decreases p.len(),
{
    if p.len() == 0 {
        None
    } else if p.last() == '/' {
        if p.len() == 1 {
            Some(seq!['/'])
        } else {
            Some(p.drop_last())
        }
    } else {
        parent_dir(p.drop_last())
    }
}

/// The directory part of `path`, as `parent_dir` describes it.
pub fn dirname(path: &str) -> (r: Option<String>)
    ensures
        match r {
            Some(d) => parent_dir(path@) == Some(d@),
            None => parent_dir(path@) is None,
        },
{
    let cs = crate::text::str_chars(path);
    let n = cs.len();
    let mut j: usize = n;
    proof {
        assert(path@.take(n as int) =~= path@);
    }
    loop
        invariant
            n == cs@.len(),
            cs@ == path@,
            j <= n,
            parent_dir(path@) == parent_dir(path@.take(j as int)),
        ensures
            j <= n,
            parent_dir(path@) == parent_dir(path@.take(j as int)),
            j == 0 || path@[j - 1] == '/',
            j == 0 ==> parent_dir(path@) is None,
        decreases j,
    {
        if j == 0 {
            proof {
                assert(path@.take(0) =~= Seq::<char>::empty());
            }
            break ;
        }
        if cs[j - 1] == '/' {
            proof {
                assert(path@.take(j as int).last() == path@[j - 1]);
            }
            break ;
        }
        proof {
            assert(path@.take(j as int).last() == path@[j - 1]);
            assert(path@.take(j as int).drop_last() =~= path@.take(j - 1));
        }
        j = j - 1;
    }
    if j == 0 {
        return None;
    }
    proof {
        assert(path@.take(j as int).last() == path@[j - 1]);
    }
    if j == 1 {
        let mut root = String::new();
        proof {
            reveal_strlit("/");
            assert("/"@ =~= seq!['/']);
        }
        root.append("/");
        proof {
            assert(parent_dir(path@.take(1)) == Some(seq!['/']));
        }
        return Some(root);
    }
    let mut out: Vec<char> = Vec::new();
    let mut k: usize = 0;
    while k < j - 1
        invariant
            n == cs@.len(),
            cs@ == path@,
            1 < j <= n,
            k <= j - 1,
            out@ == path@.take(k as int),
        decreases j - 1 - k,
    {
        out.push(cs[k]);
        proof {
            assert(path@.take(k + 1) =~= path@.take(k as int).push(path@[k as int]));
        }
        k = k + 1;
    }
    proof {
        assert(parent_dir(path@.take(j as int)) == Some(path@.take(j as int).drop_last()));
        assert(path@.take(j as int).drop_last() =~= path@.take(j - 1));
    }
    Some(crate::text::chars_to_string(&out))
}

/// Relies on `tempfile::NamedTempFile::new_in`, `std::io::Write::write_all`
/// with `File::sync_all`, and `NamedTempFile::persist`: the content is
/// written to a fresh temporary file in `dir`, flushed to disk, and the file
/// then atomically replaces `path`; on any failure the destination is left
/// untouched and the temporary file is discarded.
#[verifier::external_body]
fn persist_via_temp(dir: &str, path: &str, content: &str) -> (r: bool)
{
    let mut temp = match tempfile::NamedTempFile::new_in(dir) {
        Ok(t) => t,
        Err(_) => return false,
    };
    if std::io::Write::write_all(temp.as_file_mut(), content.as_bytes()).is_err() {
        return false;
    }
    if temp.as_file().sync_all().is_err() {
        return false;
    }
    temp.persist(path).is_ok()
}

/// Safely replace the contents of the file at `path` with `content`: at
/// every instant a reader of `path` sees either the complete prior content
/// or the complete new content.  A path without a parent directory is
/// rejected before anything is written.
pub fn atomic_write(path: &str, content: &str) -> (r: Result<(), StoreError>)
    ensures
        r == Err::<(), StoreError>(StoreError::InvalidPath) <==> parent_dir(path@) is None,
{
    let dir = match dirname(path) {
        Some(d) => d,
        None => {
            return Err(StoreError::InvalidPath);
        },
    };
    if persist_via_temp(dir.as_str(), path, content) {
        Ok(())
    } else {
        Err(StoreError::Io)
    }
}

} // verus!
