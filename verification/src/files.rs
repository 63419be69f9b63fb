//! Plain-file helpers for the open and save commands: detecting the dominant
//! line-ending style, extracting a file extension, and assembling the
//! metadata bundle the frontend receives.  The reads and writes themselves
//! stay with the caller.

use vstd::prelude::*;

verus! {

/// The largest file the open command is willing to load, in bytes.
pub const MAX_FILE_SIZE: u64 = 10485760;

/// A save request: where to write and what.
#[derive(Clone, Debug, PartialEq, Eq)]
pub struct Entry {
    pub path: String,
    pub content: String,
}

/// Metadata about a file detected at read time.
#[derive(Clone, Debug, PartialEq, Eq)]
pub struct FileInfo {
    /// Detected line-ending style: `CRLF`, `LF`, `Mixed`, or `N/A`.
    pub line_ending: String,
    /// Encoding used to read the file (always UTF-8 for now).
    pub encoding: String,
    /// On-disk file size in bytes at the moment it was read.
    pub file_size: u64,
    /// File extension without the leading dot; empty when there is none.
    pub extension: String,
}

/// Bundle returned by the open command so the frontend gets content and
/// metadata in a single round trip.
#[derive(Clone, Debug, PartialEq, Eq)]
pub struct OpenedFile {
    pub content: String,
    pub file_info: FileInfo,
}

/// A newline preceded by a carriage return stands somewhere in `s`.
pub open spec fn has_crlf(s: Seq<char>) -> bool {
    exists|j: int| 1 <= j < s.len() && #[trigger] s[j] == '\n' && s[j - 1] == '\r'
}

/// A newline not preceded by a carriage return stands somewhere in `s`.
pub open spec fn has_lone_lf(s: Seq<char>) -> bool {
    exists|j: int| 0 <= j < s.len() && #[trigger] s[j] == '\n' && (j == 0 || s[j - 1] != '\r')
}

/// The name of the dominant line-ending style.
pub open spec fn line_ending_name(s: Seq<char>) -> Seq<char> {
    if has_crlf(s) && has_lone_lf(s) {
        seq!['M', 'i', 'x', 'e', 'd']
    } else if has_crlf(s) {
        seq!['C', 'R', 'L', 'F']
    } else if has_lone_lf(s) {
        seq!['L', 'F']
    } else {
        seq!['N', '/', 'A']
    }
}

/// Detect the dominant line-ending style, answering `Mixed` as soon as both
/// styles have been seen.
pub fn detect_line_ending(content: &str) -> (r: &'static str)
    ensures
        r@ == line_ending_name(content@),
{
    proof {
        reveal_strlit("Mixed");
        reveal_strlit("CRLF");
        reveal_strlit("LF");
        reveal_strlit("N/A");
        assert("Mixed"@ =~= seq!['M', 'i', 'x', 'e', 'd']);
        assert("CRLF"@ =~= seq!['C', 'R', 'L', 'F']);
        assert("LF"@ =~= seq!['L', 'F']);
        assert("N/A"@ =~= seq!['N', '/', 'A']);
    }
    let cs = crate::text::str_chars(content);
    let mut saw_crlf: bool = false;
    let mut saw_lf: bool = false;
    let mut i: usize = 0;
    while i < cs.len()
        invariant
            cs@ == content@,
            i <= cs@.len(),
            saw_crlf == exists|j: int|
                1 <= j < i && #[trigger] cs@[j] == '\n' && cs@[j - 1] == '\r',
            saw_lf == exists|j: int|
                0 <= j < i && #[trigger] cs@[j] == '\n' && (j == 0 || cs@[j - 1] != '\r'),
            !(saw_crlf && saw_lf),
        decreases cs@.len() - i,
    {
        if cs[i] == '\n' {
            if i > 0 && cs[i - 1] == '\r' {
                saw_crlf = true;
            } else {
                saw_lf = true;
            }
        }
        if saw_crlf && saw_lf {
            proof {
                reveal_strlit("Mixed");
                assert("Mixed"@ =~= seq!['M', 'i', 'x', 'e', 'd']);
            }
            return "Mixed";
        }
        i = i + 1;
    }
    if saw_crlf {
        "CRLF"
    } else if saw_lf {
        "LF"
    } else {
        "N/A"
    }
}

/// The characters after the last dot of the last path component, scanning
/// from the end: none once a separator or the start is reached, and none for
/// a dot that opens the component (a leading-dot name has no extension).
pub open spec fn ext_rec(p: Seq<char>) -> Option<Seq<char>>
    decreases p.len(),
{
    if p.len() == 0 {
        None
    } else if p.last() == '/' {
        None
    } else if p.last() == '.' {
        if p.len() == 1 || p[p.len() - 2] == '/' {
            None
        } else {
            Some(Seq::empty())
        }
    } else {
        match ext_rec(p.drop_last()) {
            None => None,
            Some(e) => Some(e.push(p.last())),
        }
    }
}

/// The file extension of a path, without the leading dot; empty when there
/// is none.
pub open spec fn extension_of(p: Seq<char>) -> Seq<char> {
    match ext_rec(p) {
        None => Seq::empty(),
        Some(e) => e,
    }
}

/// Extract the file extension (without the dot) from a path.
pub fn extract_extension(path: &str) -> (r: String)
    ensures
        r@ == extension_of(path@),
{
    let cs = crate::text::str_chars(path);
    let n = cs.len();
    let mut j: usize = n;
    proof {
        assert(path@.take(n as int) =~= path@);
    }
    loop
        invariant
            n == cs@.len(),
            cs@ == path@,
            j <= n,
            ext_rec(path@) == match ext_rec(path@.take(j as int)) {
                None => None::<Seq<char>>,
                Some(e) => Some(e + path@.skip(j as int)),
            },
        ensures
            j <= n,
            ext_rec(path@) == match ext_rec(path@.take(j as int)) {
                None => None::<Seq<char>>,
                Some(e) => Some(e + path@.skip(j as int)),
            },
            j == 0 || path@[j - 1] == '/' || path@[j - 1] == '.',
        decreases j,
    {
        if j == 0 {
            break ;
        }
        let c = cs[j - 1];
        if c == '/' || c == '.' {
            proof {
                assert(path@.take(j as int).last() == path@[j - 1]);
            }
            break ;
        }
        proof {
            assert(path@.take(j as int).last() == path@[j - 1]);
            assert(path@.take(j as int).drop_last() =~= path@.take(j - 1));
            if ext_rec(path@.take(j - 1)) is Some {
                let e0 = ext_rec(path@.take(j - 1))->0;
                assert(e0.push(path@[j - 1]) + path@.skip(j as int) =~= e0 + path@.skip(j - 1));
            }
        }
        j = j - 1;
    }
    if j == 0 {
        proof {
            assert(path@.take(0) =~= Seq::<char>::empty());
        }
        return String::new();
    }
    let c = cs[j - 1];
    proof {
        assert(path@.take(j as int).last() == path@[j - 1]);
    }
    if c == '/' {
        return String::new();
    }
    // c is the dot closing the extension
    if j == 1 {
        return String::new();
    }
    let prev = cs[j - 2];
    proof {
        assert(path@.take(j as int)[j - 2] == path@[j - 2]);
    }
    if prev == '/' {
        return String::new();
    }
    proof {
        assert(ext_rec(path@.take(j as int)) == Some(Seq::<char>::empty()));
        assert(Seq::<char>::empty() + path@.skip(j as int) =~= path@.skip(j as int));
    }
    let mut out: Vec<char> = Vec::new();
    let mut k: usize = j;
    while k < n
        invariant
            n == cs@.len(),
            cs@ == path@,
            j <= k <= n,
            out@ == path@.subrange(j as int, k as int),
        decreases n - k,
    {
        out.push(cs[k]);
        proof {
            assert(path@.subrange(j as int, k + 1) =~= path@.subrange(j as int, k as int).push(
                path@[k as int],
            ));
        }
        k = k + 1;
    }
    proof {
        assert(path@.skip(j as int) =~= path@.subrange(j as int, n as int));
    }
    crate::text::chars_to_string(&out)
}

/// Assemble the metadata bundle for a file that was just read: its detected
/// line endings, the fixed UTF-8 encoding marker, its size, and its
/// extension.
pub fn build_file_info(content: &str, path: &str, file_size: u64) -> (r: FileInfo)
    ensures
        r.line_ending@ == line_ending_name(content@),
        r.encoding@ == seq!['U', 'T', 'F', '-', '8'],
        r.file_size == file_size,
        r.extension@ == extension_of(path@),
{
    let style = detect_line_ending(content);
    let mut line_ending = String::new();
    line_ending.append(style);
    let mut encoding = String::new();
    proof {
        reveal_strlit("UTF-8");
        assert("UTF-8"@ =~= seq!['U', 'T', 'F', '-', '8']);
    }
    encoding.append("UTF-8");
    FileInfo { line_ending, encoding, file_size, extension: extract_extension(path) }
}

/// Whether a file is too large for the open command.
pub fn file_too_large(size: u64) -> (r: bool)
    ensures
        r == (size > MAX_FILE_SIZE),
{
    size > MAX_FILE_SIZE
}

} // verus!
