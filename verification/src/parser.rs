//! Which log files a run reads: the configured path itself when it is a
//! file, the `.log` files of a directory, or the files that a glob pattern
//! (`*`, `?`, `[...]` in the last component of the path) names.

use vstd::prelude::*;
use crate::error::{Error, ParserError};
use crate::text::owned;

verus! {

/// What the file system says of the configured path.
#[derive(Debug)]
pub enum PathListing {
    /// Nothing exists at the path.
    Missing,
    /// The path is a file.
    File,
    /// The path is a directory with these entries, in listing order.
    Directory(Vec<DirEntry>),
    /// The path is neither a file nor a directory.
    Other,
    /// Listing the directory failed, with this reason.
    ReadDirFailed(String),
    /// The path is a glob pattern; these are the entries of the directory
    /// of its last component, in listing order.
    Glob(Vec<DirEntry>),
}

/// One entry of a directory listing.
#[derive(Debug)]
pub struct DirEntry {
    /// The full path of the entry.
    pub path: String,
    /// The last component of the path.
    pub file_name: String,
    /// The entry is a regular file.
    pub is_file: bool,
}

/// A file name whose extension is `log` (`Path::extension`): something,
/// then `.log`.
pub open spec fn is_log_name(n: Seq<char>) -> bool {
    n.len() > 4 && n.skip(n.len() - 4) == ".log"@
}

/// The paths of the `.log` files among `entries`, in order.
pub open spec fn log_entries(entries: Seq<DirEntry>) -> Seq<Seq<char>>
    decreases entries.len(),
{
    if entries.len() == 0 {
        Seq::empty()
    } else {
        let rest = log_entries(entries.drop_last());
        let e = entries.last();
        if e.is_file && is_log_name(e.file_name@) {
            rest.push(e.path@)
        } else {
            rest
        }
    }
}

// ───────────────────────────── glob patterns ─────────────────────────────

/// Position just after the last `/` of `p`, or 0.
pub open spec fn after_last_slash(p: Seq<char>) -> int
    decreases p.len(),
{
    if p.len() == 0 {
        0
    } else if p.last() == '/' {
        p.len() as int
    } else {
        after_last_slash(p.drop_last())
    }
}

/// The last component of a path: the file-name pattern of a glob.
pub open spec fn file_pattern(p: Seq<char>) -> Seq<char> {
    p.skip(after_last_slash(p))
}

/// Position of the `]` that closes a character class whose members start
/// at `k`: the first `]` after the first member, or `None`.
pub open spec fn class_close(p: Seq<char>, k: int) -> Option<int>
    decreases p.len() - k,
{
    if k < 0 || k + 1 >= p.len() {
        None
    } else if p[k + 1] == ']' {
        Some(k + 1)
    } else {
        class_close(p, k + 1)
    }
}

/// `c` is among the members `p[a..e]` of a class: single characters and
/// ranges `x-y`.
pub open spec fn in_class(p: Seq<char>, a: int, e: int, c: char) -> bool
    decreases e - a,
{
    if a < 0 || a >= e || e > p.len() {
        false
    } else if a + 2 < e && p[a + 1] == '-' {
        (p[a] <= c && c <= p[a + 2]) || in_class(p, a + 3, e, c)
    } else {
        p[a] == c || in_class(p, a + 1, e, c)
    }
}

/// The class that starts with `[` at `i`: whether it is negated (`[!`),
/// where its members start and where its `]` stands.
pub open spec fn class_at(p: Seq<char>, i: int) -> Option<(bool, int, int)> {
    let neg = i + 1 < p.len() && p[i + 1] == '!';
    let a = if neg { i + 2 } else { i + 1 };
    match class_close(p, a) {
        Some(e) => Some((neg, a, e)),
        None => None,
    }
}

/// The pattern `p` from `i` on matches the name `n` from `j` on: `*`
/// matches any run of characters, `?` any one character, `[...]` one
/// character of the class (`[!...]` one not in it), and any other
/// character itself (an unclosed `[` too).
pub open spec fn glob_at(p: Seq<char>, i: int, n: Seq<char>, j: int) -> bool
    decreases p.len() - i, n.len() - j,
{
    if i < 0 || j < 0 || i >= p.len() {
        i >= p.len() && j >= n.len()
    } else if p[i] == '*' {
        glob_at(p, i + 1, n, j) || (j < n.len() && glob_at(p, i, n, j + 1))
    } else if j >= n.len() {
        false
    } else if p[i] == '?' {
        glob_at(p, i + 1, n, j + 1)
    } else if p[i] == '[' && class_at(p, i) is Some {
        let (neg, a, e) = class_at(p, i)->0;
        if e < i + 1 || e >= p.len() {
            false
        } else {
            (in_class(p, a, e, n[j]) != neg) && glob_at(p, e + 1, n, j + 1)
        }
    } else {
        p[i] == n[j] && glob_at(p, i + 1, n, j + 1)
    }
}

/// The name `n` matches the pattern `p` as a whole.
pub open spec fn glob_match(p: Seq<char>, n: Seq<char>) -> bool {
    glob_at(p, 0, n, 0)
}

/// The paths of the files among `entries` whose names match `pat`, in
/// order.
pub open spec fn glob_entries(entries: Seq<DirEntry>, pat: Seq<char>) -> Seq<Seq<char>>
    decreases entries.len(),
{
    if entries.len() == 0 {
        Seq::empty()
    } else {
        let rest = glob_entries(entries.drop_last(), pat);
        let e = entries.last();
        if e.is_file && glob_match(pat, e.file_name@) {
            rest.push(e.path@)
        } else {
            rest
        }
    }
}

fn class_close_exec(p: &Vec<char>, k: usize) -> (r: Option<usize>)
    requires
        k <= p.len(),
    ensures
        match r {
            Some(e) => class_close(p@, k as int) == Some(e as int) && k < e < p.len(),
            None => class_close(p@, k as int) is None,
        },
{
    let mut q = k;
    while q < p.len() && q + 1 < p.len()
        invariant
            k <= q <= p.len(),
            class_close(p@, k as int) == class_close(p@, q as int),
        decreases p.len() - q,
    {
        if p[q + 1] == ']' {
            return Some(q + 1);
        }
        q += 1;
    }
    None
}

fn in_class_exec(p: &Vec<char>, a0: usize, e: usize, c: char) -> (b: bool)
    requires
        e <= p.len(),
    ensures
        b == in_class(p@, a0 as int, e as int, c),
{
    let mut a = a0;
    while a < e
        invariant
            e <= p.len(),
            in_class(p@, a0 as int, e as int, c) == in_class(p@, a as int, e as int, c),
        decreases e - a,
    {
        if e - a > 2 && p[a + 1] == '-' {
            if p[a] <= c && c <= p[a + 2] {
                return true;
            }
            a += 3;
        } else {
            if p[a] == c {
                return true;
            }
            a += 1;
        }
    }
    false
}

fn glob_at_exec(p: &Vec<char>, i: usize, n: &Vec<char>, j: usize) -> (b: bool)
    requires
        i <= p.len(),
        j <= n.len(),
    ensures
        b == glob_at(p@, i as int, n@, j as int),
    decreases p.len() - i, n.len() - j,
{
    if i >= p.len() {
        return j >= n.len();
    }
    if p[i] == '*' {
        if glob_at_exec(p, i + 1, n, j) {
            return true;
        }
        return j < n.len() && glob_at_exec(p, i, n, j + 1);
    }
    if j >= n.len() {
        return false;
    }
    if p[i] == '?' {
        return glob_at_exec(p, i + 1, n, j + 1);
    }
    if p[i] == '[' {
        let neg = i + 1 < p.len() && p[i + 1] == '!';
        let a: usize = if neg { i + 2 } else { i + 1 };
        if let Some(e) = class_close_exec(p, a) {
            assert(class_at(p@, i as int) == Some((neg, a as int, e as int)));
            let hit = in_class_exec(p, a, e, n[j]);
            return hit != neg && glob_at_exec(p, e + 1, n, j + 1);
        }
    }
    p[i] == n[j] && glob_at_exec(p, i + 1, n, j + 1)
}

/// Whether the file name `name` matches the glob pattern `pattern`.
pub fn glob_matches(pattern: &str, name: &str) -> (b: bool)
    ensures
        b == glob_match(pattern@, name@),
{
    let p = crate::text::chars_of(pattern);
    let n = crate::text::chars_of(name);
    glob_at_exec(&p, 0, &n, 0)
}

fn file_pattern_exec(path: &str) -> (r: String)
    ensures
        r@ == file_pattern(path@),
{
    let cs = crate::text::chars_of(path);
    let mut k: usize = cs.len();
    assert(path@.take(k as int) =~= path@);
    while k > 0 && cs[k - 1] != '/'
        invariant
            k <= cs.len(),
            cs@ == path@,
            after_last_slash(path@) == after_last_slash(path@.take(k as int)),
        decreases k,
    {
        assert(path@.take(k as int).drop_last() =~= path@.take(k - 1));
        k -= 1;
    }
    proof {
        if k == 0 {
            assert(path@.take(0) =~= Seq::<char>::empty());
        } else {
            assert(path@.take(k as int).last() == '/');
        }
    }
    let mut r = String::new();
    let mut i = k;
    while i < cs.len()
        invariant
            k <= i <= cs.len(),
            cs@ == path@,
            k == after_last_slash(path@),
            r@ == path@.subrange(k as int, i as int),
        decreases cs.len() - i,
    {
        crate::text::push_char(&mut r, cs[i]);
        i += 1;
        assert(r@ =~= path@.subrange(k as int, i as int));
    }
    assert(path@.subrange(k as int, i as int) =~= file_pattern(path@));
    r
}

fn log_name(n: &str) -> (b: bool)
    ensures
        b == is_log_name(n@),
{
    let cs = crate::text::chars_of(n);
    let len = cs.len();
    if len <= 4 {
        return false;
    }
    let r = cs[len - 4] == '.' && cs[len - 3] == 'l' && cs[len - 2] == 'o' && cs[len - 1] == 'g';
    proof {
        reveal_strlit(".log");
        let t = n@.skip(len - 4);
        if r {
            assert(t =~= ".log"@);
        } else {
            assert(t[0] != '.' || t[1] != 'l' || t[2] != 'o' || t[3] != 'g');
            assert(t != ".log"@);
        }
    }
    r
}

/// The SQL log reader of a configured path.
#[derive(Debug)]
pub struct SqllogParser {
    path: String,
}

impl SqllogParser {
    pub closed spec fn spec_path(&self) -> Seq<char> {
        self.path@
    }

    /// A reader of `path` (a file or a directory).
    pub fn new(path: &str) -> (p: Self)
        ensures
            p.spec_path() == path@,
    {
        SqllogParser { path: owned(path) }
    }

    /// The configured path.
    pub fn path(&self) -> (p: &str)
        ensures
            p@ == self.spec_path(),
    {
        self.path.as_str()
    }

    /// The log files to read, given what the file system says of the path:
    /// the path itself when it is a file, the `.log` files of a directory
    /// in listing order, and an error when the path is missing, is neither
    /// a file nor a directory, or cannot be listed.
    pub fn log_files(&self, listing: &PathListing) -> (r: Result<Vec<String>, Error>)
        ensures
            match *listing {
                PathListing::Missing => r matches Err(Error::Parser(ParserError::PathNotFound { path }))
                    && path@ == self.spec_path(),
                PathListing::File => r matches Ok(v) && crate::filters::strings_view(v@) == seq![self.spec_path()],
                PathListing::Directory(es) => r matches Ok(v) && crate::filters::strings_view(v@) == log_entries(es@),
                PathListing::Other => r matches Err(Error::Parser(ParserError::InvalidPath { path, reason }))
                    && path@ == self.spec_path() && reason@ == "既不是文件也不是目录"@,
                PathListing::ReadDirFailed(why) => r matches Err(Error::Parser(ParserError::ReadDirFailed { path, reason }))
                    && path@ == self.spec_path() && reason@ == why@,
                PathListing::Glob(es) => r matches Ok(v)
                    && crate::filters::strings_view(v@) == glob_entries(es@, file_pattern(self.spec_path())),
            },
    {
        match listing {
            PathListing::Missing => Err(Error::Parser(ParserError::PathNotFound { path: self.path.clone() })),
            PathListing::File => {
                let mut v: Vec<String> = Vec::new();
                v.push(self.path.clone());
                assert(crate::filters::strings_view(v@) =~= seq![self.spec_path()]);
                Ok(v)
            },
            PathListing::Directory(es) => {
                let mut v: Vec<String> = Vec::new();
                let mut i: usize = 0;
                while i < es.len()
                    invariant
                        i <= es.len(),
                        crate::filters::strings_view(v@) == log_entries(es@.take(i as int)),
                    decreases es.len() - i,
                {
                    assert(es@.take(i + 1).drop_last() =~= es@.take(i as int));
                    assert(es@.take(i + 1).last() == es@[i as int]);
                    let e = &es[i];
                    if e.is_file && log_name(e.file_name.as_str()) {
                        let ghost before = v@;
                        let p = e.path.clone();
                        v.push(p);
                        assert(crate::filters::strings_view(v@) =~= crate::filters::strings_view(before).push(p@));
                    }
                    i += 1;
                }
                assert(es@.take(i as int) =~= es@);
                Ok(v)
            },
            PathListing::Other => Err(Error::Parser(ParserError::InvalidPath {
                path: self.path.clone(),
                reason: owned("既不是文件也不是目录"),
            })),
            PathListing::ReadDirFailed(why) => Err(Error::Parser(ParserError::ReadDirFailed {
                path: self.path.clone(),
                reason: why.clone(),
            })),
            PathListing::Glob(es) => {
                let pat = file_pattern_exec(self.path.as_str());
                let mut v: Vec<String> = Vec::new();
                let mut i: usize = 0;
                while i < es.len()
                    invariant
                        i <= es.len(),
                        pat@ == file_pattern(self.spec_path()),
                        crate::filters::strings_view(v@) == glob_entries(es@.take(i as int), pat@),
                    decreases es.len() - i,
                {
                    assert(es@.take(i + 1).drop_last() =~= es@.take(i as int));
                    assert(es@.take(i + 1).last() == es@[i as int]);
                    let e = &es[i];
                    if e.is_file && glob_matches(pat.as_str(), e.file_name.as_str()) {
                        let ghost before = v@;
                        let p = e.path.clone();
                        v.push(p);
                        assert(crate::filters::strings_view(v@) =~= crate::filters::strings_view(before).push(p@));
                    }
                    i += 1;
                }
                assert(es@.take(i as int) =~= es@);
                Ok(v)
            },
        }
    }
}

} // verus!
