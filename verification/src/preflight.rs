//! Checks made before a run: the warnings and errors that decide whether
//! it starts.

use vstd::prelude::*;
use crate::text::{contains, owned, str_contains};

verus! {

/// The findings of the checks.
#[derive(Debug)]
pub struct PreflightResult {
    pub errors: Vec<String>,
    pub warnings: Vec<String>,
}

impl Default for PreflightResult {
    fn default() -> (r: Self)
        ensures
            r.errors@.len() == 0,
            r.warnings@.len() == 0,
    {
        PreflightResult { errors: Vec::new(), warnings: Vec::new() }
    }
}

impl PreflightResult {
    /// Some check failed fatally.
    pub fn has_errors(&self) -> (b: bool)
        ensures
            b == (self.errors@.len() > 0),
    {
        self.errors.len() > 0
    }
}

/// The path is a glob pattern (`*`, `?` or `[`).
pub open spec fn is_glob(p: Seq<char>) -> bool {
    contains(p, "*"@) || contains(p, "?"@) || contains(p, "["@)
}

/// Checks the log path.  `exists` says whether the path exists (it is
/// not consulted for glob patterns); `scan` is what listing the log files
/// gave: their number, or the message of the error.  A missing non-glob
/// path is an error, a failed scan is an error, an empty scan is a
/// warning.
pub fn check_log_path(path: &str, exists: bool, scan: &Result<usize, String>, result: &mut PreflightResult)
    ensures
        !is_glob(path@) && !exists ==> {
            &&& crate::filters::strings_view(final(result).errors@)
                == crate::filters::strings_view(old(result).errors@).push(
                    "日志路径不存在: "@ + path@ + "  (可用 --set sqllog.path=<path> 覆盖)"@)
            &&& final(result).warnings@ == old(result).warnings@
        },
        is_glob(path@) || exists ==> match *scan {
            Ok(n) => {
                &&& final(result).errors@ == old(result).errors@
                &&& n == 0 ==> crate::filters::strings_view(final(result).warnings@)
                    == crate::filters::strings_view(old(result).warnings@).push("路径 "@ + path@ + " 中未找到 .log 文件"@)
                &&& n > 0 ==> final(result).warnings@ == old(result).warnings@
            },
            Err(msg) => {
                &&& crate::filters::strings_view(final(result).errors@)
                    == crate::filters::strings_view(old(result).errors@).push("扫描日志路径失败: "@ + msg@)
                &&& final(result).warnings@ == old(result).warnings@
            },
        },
{
    let glob = str_contains(path, "*") || str_contains(path, "?") || str_contains(path, "[");
    if !glob && !exists {
        let mut m = owned("日志路径不存在: ");
        m.append(path);
        m.append("  (可用 --set sqllog.path=<path> 覆盖)");
        let ghost before = result.errors@;
        result.errors.push(m);
        assert(crate::filters::strings_view(result.errors@) =~= crate::filters::strings_view(before).push(m@));
        return;
    }
    match scan {
        Ok(n) => {
            if *n == 0 {
                let mut m = owned("路径 ");
                m.append(path);
                m.append(" 中未找到 .log 文件");
                let ghost before = result.warnings@;
                result.warnings.push(m);
                assert(crate::filters::strings_view(result.warnings@) =~= crate::filters::strings_view(before).push(m@));
            }
        },
        Err(e) => {
            let mut m = owned("扫描日志路径失败: ");
            m.append(e.as_str());
            let ghost before = result.errors@;
            result.errors.push(m);
            assert(crate::filters::strings_view(result.errors@) =~= crate::filters::strings_view(before).push(m@));
        },
    }
}


/// What the file system says of an output file.
#[derive(Debug, Clone, Copy, PartialEq, Eq, Structural)]
pub enum OutputProbe {
    /// The file exists; `writable` says whether it opens for appending.
    Exists { writable: bool },
    /// The file does not exist and lies in the current directory.
    InCurrentDir,
    /// The directory of the file exists; `writable` says whether a file
    /// can be created in it.
    DirExists { writable: bool },
    /// The directory does not exist; `created` says whether creating it
    /// succeeded.
    DirMissing { created: bool },
}

/// The message that a probe of `file_path` (in directory `dir`) gives, if
/// it is an error.
pub open spec fn output_error(file_path: Seq<char>, dir: Seq<char>, probe: OutputProbe) -> Option<Seq<char>> {
    match probe {
        OutputProbe::Exists { writable } => if writable { None } else { Some("输出文件不可写: "@ + file_path) },
        OutputProbe::InCurrentDir => None,
        OutputProbe::DirExists { writable } => if writable { None } else { Some("输出目录不可写: "@ + dir) },
        OutputProbe::DirMissing { created } => if created { None } else { Some("无法创建输出目录: "@ + dir) },
    }
}

/// Checks that the output can be written: an existing file must open for
/// appending, the directory of a new file must take a new file or be
/// creatable.  A failure is an error; warnings are not touched.
pub fn check_path_writable(file_path: &str, dir: &str, probe: OutputProbe, result: &mut PreflightResult)
    ensures
        final(result).warnings@ == old(result).warnings@,
        match output_error(file_path@, dir@, probe) {
            None => final(result).errors@ == old(result).errors@,
            Some(m) => crate::filters::strings_view(final(result).errors@)
                == crate::filters::strings_view(old(result).errors@).push(m),
        },
{
    let msg: Option<String> = match probe {
        OutputProbe::Exists { writable } => if writable {
            None
        } else {
            let mut m = owned("输出文件不可写: ");
            m.append(file_path);
            Some(m)
        },
        OutputProbe::InCurrentDir => None,
        OutputProbe::DirExists { writable } => if writable {
            None
        } else {
            let mut m = owned("输出目录不可写: ");
            m.append(dir);
            Some(m)
        },
        OutputProbe::DirMissing { created } => if created {
            None
        } else {
            let mut m = owned("无法创建输出目录: ");
            m.append(dir);
            Some(m)
        },
    };
    if let Some(m) = msg {
        let ghost before = result.errors@;
        let ghost mv = m@;
        result.errors.push(m);
        assert(crate::filters::strings_view(result.errors@) =~= crate::filters::strings_view(before).push(mv));
    }
}

/// The output that a run writes: the CSV file when configured, else the
/// SQLite database, else nothing.
pub fn output_path(cfg: &crate::config::Config) -> (r: Option<&str>)
    ensures
        match cfg.exporter.csv {
            Some(c) => r matches Some(p) && p@ == c.file@,
            None => match cfg.exporter.sqlite {
                Some(q) => r matches Some(p) && p@ == q.database_url@,
                None => r is None,
            },
        },
{
    match &cfg.exporter.csv {
        Some(c) => Some(c.file.as_str()),
        None => match &cfg.exporter.sqlite {
            Some(q) => Some(q.database_url.as_str()),
            None => None,
        },
    }
}

} // verus!
