//! What the exporters compute before they write: export counters, the
//! dry-run exporter, the CSV encoding of a record and of its header, and
//! the rows of the template statistics file.

use vstd::prelude::*;
use vstd::utf8::encode_utf8;
use vstd::slice::slice_subrange;
use crate::error::{ConfigError, Error};
use crate::config::Config;
use crate::features::{all_positions, field_name, field_name_at, FieldMask, ALL_FIELDS, FIELD_COUNT};
use crate::text::{eq_ignore_case, str_eq_ignore_case};
pub use crate::templates::TemplateStats;

verus! {

broadcast use vstd::string::group_string_axioms;

// ───────────────────────────── counters ─────────────────────────────

/// Counters of one export run.
#[derive(Debug, Clone, Copy, PartialEq, Eq, Structural)]
pub struct ExportStats {
    pub exported: usize,
    pub skipped: usize,
    pub failed: usize,
    pub flush_operations: usize,
    pub last_flush_size: usize,
}

impl ExportStats {
    /// All counters at zero.
    pub fn new() -> (s: Self)
        ensures
            s.exported == 0 && s.skipped == 0 && s.failed == 0,
            s.flush_operations == 0 && s.last_flush_size == 0,
    {
        ExportStats { exported: 0, skipped: 0, failed: 0, flush_operations: 0, last_flush_size: 0 }
    }

    /// Counts one exported record.
    pub fn record_success(&mut self)
        requires
            old(self).exported < usize::MAX,
        ensures
            *final(self) == (ExportStats { exported: (old(self).exported + 1) as usize, ..*old(self) }),
    {
        self.exported = self.exported + 1;
    }

    /// Records handled in all: exported, skipped and failed.
    pub fn total(&self) -> (t: usize)
        requires
            self.exported + self.skipped + self.failed <= usize::MAX,
        ensures
            t == self.exported + self.skipped + self.failed,
    {
        self.exported + self.skipped + self.failed
    }
}

impl Default for ExportStats {
    fn default() -> (s: Self)
        ensures
            s == (ExportStats { exported: 0, skipped: 0, failed: 0, flush_operations: 0, last_flush_size: 0 }),
    {
        ExportStats::new()
    }
}

/// Which exporter a run writes with.
#[derive(Debug, Clone, Copy, PartialEq, Eq, Structural)]
pub enum ExporterKind {
    Csv,
    Sqlite,
    DryRun,
}

impl ExporterKind {
    /// The configured exporter: CSV when configured, else SQLite; no
    /// exporter configured is an error.
    pub fn from_config(config: &Config) -> (r: Result<ExporterKind, Error>)
        ensures
            config.exporter.csv is Some ==> r == Ok::<ExporterKind, Error>(ExporterKind::Csv),
            config.exporter.csv is None && config.exporter.sqlite is Some ==> r == Ok::<ExporterKind, Error>(ExporterKind::Sqlite),
            config.exporter.csv is None && config.exporter.sqlite is None ==> r matches Err(Error::Config(ConfigError::NoExporters)),
    {
        if config.exporter.csv.is_some() {
            Ok(ExporterKind::Csv)
        } else if config.exporter.sqlite.is_some() {
            Ok(ExporterKind::Sqlite)
        } else {
            Err(Error::Config(ConfigError::NoExporters))
        }
    }

    /// The exporter of a dry run.
    pub fn dry_run() -> (k: ExporterKind)
        ensures
            k == ExporterKind::DryRun,
    {
        ExporterKind::DryRun
    }

    /// The exporter's display name.
    pub fn name(&self) -> (n: &'static str)
        ensures
            n@ == match *self {
                ExporterKind::Csv => "CSV"@,
                ExporterKind::Sqlite => "SQLite"@,
                ExporterKind::DryRun => "dry-run"@,
            },
    {
        match self {
            ExporterKind::Csv => "CSV",
            ExporterKind::Sqlite => "SQLite",
            ExporterKind::DryRun => "dry-run",
        }
    }

    /// Whether lines carry the performance-metric columns: as configured
    /// for CSV, always for the other exporters (their layout is fixed).
    pub fn csv_include_performance_metrics(&self, config: &Config) -> (b: bool)
        ensures
            b == match (*self, config.exporter.csv) {
                (ExporterKind::Csv, Some(c)) => c.include_performance_metrics,
                _ => true,
            },
    {
        match self {
            ExporterKind::Csv => match &config.exporter.csv {
                Some(c) => c.include_performance_metrics,
                None => true,
            },
            _ => true,
        }
    }
}

/// The exporter of `--dry-run`: counts records and writes nothing.
#[derive(Debug)]
pub struct DryRunExporter {
    pub stats: ExportStats,
}

impl Default for DryRunExporter {
    fn default() -> (e: Self)
        ensures
            e.stats == (ExportStats { exported: 0, skipped: 0, failed: 0, flush_operations: 0, last_flush_size: 0 }),
    {
        DryRunExporter { stats: ExportStats::new() }
    }
}

impl DryRunExporter {
    /// Nothing to prepare.
    pub fn initialize(&mut self) -> (r: Result<(), Error>)
        ensures
            r is Ok,
            *final(self) == *old(self),
    {
        Ok(())
    }

    /// Counts one record as exported.
    pub fn export(&mut self) -> (r: Result<(), Error>)
        requires
            old(self).stats.exported < usize::MAX,
        ensures
            r is Ok,
            final(self).stats == (ExportStats { exported: (old(self).stats.exported + 1) as usize, ..old(self).stats }),
    {
        self.stats.record_success();
        Ok(())
    }

    /// Nothing to flush.
    pub fn finalize(&mut self) -> (r: Result<(), Error>)
        ensures
            r is Ok,
            *final(self) == *old(self),
    {
        Ok(())
    }

    /// The counters so far.
    pub fn stats_snapshot(&self) -> (s: Option<ExportStats>)
        ensures
            s == Some(self.stats),
    {
        Some(self.stats)
    }

    /// Template statistics are not written in a dry run.
    pub fn write_template_stats(&mut self, stats: &[TemplateStats]) -> (r: Result<(), Error>)
        ensures
            r is Ok,
            *final(self) == *old(self),
    {
        Ok(())
    }
}

// ───────────────────────────── client addresses ─────────────────────────────

/// `ip` without an IPv4-mapped IPv6 prefix `::ffff:` (any ASCII case),
/// when something follows the prefix.
pub open spec fn stripped_ip(ip: Seq<char>) -> Seq<char> {
    if ip.len() > 7 && eq_ignore_case(ip.take(7), "::ffff:"@) {
        ip.skip(7)
    } else {
        ip
    }
}

/// An address that the prefix test can cut after its first 7 bytes: one
/// that starts with `:` and is longer than 7 bytes has a character
/// boundary there (cutting inside a character panics).
pub open spec fn ip_cut_ok(ip: Seq<char>) -> bool {
    let b = encode_utf8(ip);
    (b.len() > 7 && b[0] == 58u8) ==> vstd::utf8::is_char_boundary(b, 7)
}

/// Removes the IPv4-mapped IPv6 prefix: `::ffff:192.168.1.1` becomes
/// `192.168.1.1`; other addresses are returned as they are.
pub fn strip_ip_prefix(ip: &str) -> (r: &str)
    requires
        ip_cut_ok(ip@),
    ensures
        r@ == stripped_ip(ip@),
{
    let n = ip.unicode_len();
    if n <= 7 {
        return ip;
    }
    let head = ip.substring_char(0, 7);
    if str_eq_ignore_case(head, "::ffff:") {
        ip.substring_char(7, n)
    } else {
        ip
    }
}

// ───────────────────────────── CSV encoding ─────────────────────────────

/// `"` as a byte.
pub open spec fn quote() -> u8 {
    34u8
}

/// CSV escaping: every `"` doubled.
pub open spec fn csv_escape(b: Seq<u8>) -> Seq<u8>
    decreases b.len(),
{
    if b.len() == 0 {
        Seq::empty()
    } else {
        csv_escape(b.drop_last()) + if b.last() == quote() {
            seq![quote(), quote()]
        } else {
            seq![b.last()]
        }
    }
}

/// A quoted CSV cell.
pub open spec fn quoted(b: Seq<u8>) -> Seq<u8> {
    seq![quote()] + csv_escape(b) + seq![quote()]
}

pub proof fn lemma_csv_escape_append(a: Seq<u8>, b: Seq<u8>)
    ensures
        csv_escape(a + b) == csv_escape(a) + csv_escape(b),
    decreases b.len(),
{
    if b.len() == 0 {
        assert(a + b =~= a);
        assert(csv_escape(b) =~= Seq::<u8>::empty());
        assert(csv_escape(a) + csv_escape(b) =~= csv_escape(a));
    } else {
        lemma_csv_escape_append(a, b.drop_last());
        assert((a + b).drop_last() =~= a + b.drop_last());
        let t = if b.last() == quote() { seq![quote(), quote()] } else { seq![b.last()] };
        assert(csv_escape(a) + csv_escape(b.drop_last()) + t =~= csv_escape(a) + (csv_escape(b.drop_last()) + t));
    }
}

pub proof fn lemma_csv_escape_plain(a: Seq<u8>)
    requires
        forall|i: int| 0 <= i < a.len() ==> a[i] != quote(),
    ensures
        csv_escape(a) == a,
    decreases a.len(),
{
    if a.len() > 0 {
        lemma_csv_escape_plain(a.drop_last());
        assert(a.drop_last().push(a.last()) =~= a);
    }
}

/// Reading a CSV cell body: `""` stands for one `"`.
pub open spec fn csv_unescape(e: Seq<u8>) -> Seq<u8>
    decreases e.len(),
{
    if e.len() == 0 {
        Seq::empty()
    } else if e.len() >= 2 && e[0] == quote() && e[1] == quote() {
        seq![quote()] + csv_unescape(e.skip(2))
    } else {
        seq![e[0]] + csv_unescape(e.skip(1))
    }
}

/// `csv_escape` of a byte, then the rest.
proof fn lemma_csv_escape_front(b: Seq<u8>)
    requires
        b.len() > 0,
    ensures
        csv_escape(b) == (if b[0] == quote() { seq![quote(), quote()] } else { seq![b[0]] }) + csv_escape(b.skip(1)),
{
    assert(b =~= seq![b[0]] + b.skip(1));
    lemma_csv_escape_append(seq![b[0]], b.skip(1));
    assert(seq![b[0]].drop_last() =~= Seq::<u8>::empty());
    assert(csv_escape(Seq::<u8>::empty()) =~= Seq::<u8>::empty());
    let t = if b[0] == quote() { seq![quote(), quote()] } else { seq![b[0]] };
    assert(csv_escape(seq![b[0]]) =~= t);
}

/// Escaping is undone by reading doubled quotes back as one: a CSV reader
/// gets back exactly the bytes that were written.
pub proof fn lemma_csv_escape_roundtrip(b: Seq<u8>)
    ensures
        csv_unescape(csv_escape(b)) == b,
    decreases b.len(),
{
    if b.len() > 0 {
        lemma_csv_escape_front(b);
        lemma_csv_escape_roundtrip(b.skip(1));
        let e = csv_escape(b);
        let rest = csv_escape(b.skip(1));
        if b[0] == quote() {
            assert(e.skip(2) =~= rest);
        } else {
            assert(e.skip(1) =~= rest);
        }
        assert(b =~= seq![b[0]] + b.skip(1));
    }
}

/// The first position of `needle` in `haystack` (`memchr::memchr`).
/// Trusted: `memchr` returns the index of the first occurrence of the byte,
/// or `None` when the byte does not occur.
#[verifier::external_body]
fn memchr_byte(needle: u8, haystack: &[u8]) -> (r: Option<usize>)
    ensures
        match r {
            Some(i) => i < haystack@.len() && haystack@[i as int] == needle
                && forall|j: int| 0 <= j < i ==> haystack@[j] != needle,
            None => forall|j: int| 0 <= j < haystack@.len() ==> haystack@[j] != needle,
        },
{
    memchr::memchr(needle, haystack)
}

/// Appends `b` to `buf`.
fn append_bytes(buf: &mut Vec<u8>, b: &[u8])
    ensures
        final(buf)@ == old(buf)@ + b@,
{
    let mut i: usize = 0;
    while i < b.len()
        invariant
            i <= b.len(),
            buf@ == old(buf)@ + b@.take(i as int),
        decreases b.len() - i,
    {
        buf.push(b[i]);
        i += 1;
        assert(buf@ =~= old(buf)@ + b@.take(i as int));
    }
    assert(b@.take(i as int) =~= b@);
}

/// Appends `bytes` to `buf` with every `"` doubled.
pub fn write_csv_escaped(buf: &mut Vec<u8>, bytes: &[u8])
    ensures
        final(buf)@ == old(buf)@ + csv_escape(bytes@),
{
    let mut start: usize = 0;
    let mut done = false;
    while !done
        invariant
            start <= bytes.len(),
            !done ==> buf@ == old(buf)@ + csv_escape(bytes@.take(start as int)),
            done ==> buf@ == old(buf)@ + csv_escape(bytes@),
        decreases bytes.len() - start + if done { 0int } else { 1int },
    {
        let rest = slice_subrange(bytes, start, bytes.len());
        match memchr_byte(34u8, rest) {
            Some(pos) => {
                let chunk = slice_subrange(bytes, start, start + pos + 1);
                append_bytes(buf, chunk);
                buf.push(34u8);
                proof {
                    let c = chunk@;
                    assert(c.last() == quote());
                    lemma_csv_escape_plain(c.drop_last());
                    assert(csv_escape(c) == c.drop_last() + seq![quote(), quote()]);
                    assert(c.drop_last() + seq![quote(), quote()] =~= c.push(quote()));
                    assert(bytes@.take(start + pos + 1) =~= bytes@.take(start as int) + c);
                    lemma_csv_escape_append(bytes@.take(start as int), c);
                }
                start = start + pos + 1;
            },
            None => {
                append_bytes(buf, rest);
                proof {
                    lemma_csv_escape_plain(rest@);
                    assert(bytes@ =~= bytes@.take(start as int) + rest@);
                    lemma_csv_escape_append(bytes@.take(start as int), rest@);
                }
                done = true;
            },
        }
    }
}

/// Decimal digits of `n` as ASCII bytes.
pub open spec fn udec(n: nat) -> Seq<u8>
    decreases n,
{
    if n < 10 {
        seq![(n + 48) as u8]
    } else {
        udec(n / 10).push(((n % 10) + 48) as u8)
    }
}

/// Decimal notation of `n` as ASCII bytes, with `-` for negatives.
pub open spec fn idec(n: int) -> Seq<u8> {
    if n < 0 {
        seq![45u8] + udec((-n) as nat)
    } else {
        udec(n as nat)
    }
}

/// Appends the decimal digits of `n`.
pub fn push_udec(buf: &mut Vec<u8>, n: u64)
    ensures
        final(buf)@ == old(buf)@ + udec(n as nat),
    decreases n,
{
    if n >= 10 {
        push_udec(buf, n / 10);
    }
    let d: u8 = (n % 10) as u8;
    buf.push(d + 48);
    proof {
        if n >= 10 {
            assert(old(buf)@ + udec((n / 10) as nat) + seq![(d + 48) as u8] =~= old(buf)@ + udec(n as nat));
        } else {
            assert(old(buf)@ + seq![(d + 48) as u8] =~= old(buf)@ + udec(n as nat));
        }
    }
}

/// Appends the decimal notation of `n`.
pub fn push_idec(buf: &mut Vec<u8>, n: i64)
    ensures
        final(buf)@ == old(buf)@ + idec(n as int),
{
    if n < 0 {
        buf.push(45u8);
        let m: u64 = (-(n as i128)) as u64;
        push_udec(buf, m);
        assert(old(buf)@.push(45u8) + udec(m as nat) =~= old(buf)@ + idec(n as int));
    } else {
        push_udec(buf, n as u64);
    }
}

/// Appends `s` as a quoted CSV cell.
fn push_quoted(buf: &mut Vec<u8>, s: &str)
    ensures
        final(buf)@ == old(buf)@ + quoted(encode_utf8(s@)),
{
    buf.push(34u8);
    write_csv_escaped(buf, s.as_bytes());
    buf.push(34u8);
    assert(old(buf)@.push(34u8) + csv_escape(encode_utf8(s@)) + seq![34u8] =~= old(buf)@ + quoted(encode_utf8(s@)));
}

/// `ps` joined by commas.
pub open spec fn join_comma(ps: Seq<Seq<u8>>) -> Seq<u8>
    decreases ps.len(),
{
    if ps.len() == 0 {
        Seq::empty()
    } else if ps.len() == 1 {
        ps[0]
    } else {
        join_comma(ps.drop_last()) + seq![44u8] + ps.last()
    }
}

proof fn lemma_join_push(ps: Seq<Seq<u8>>, c: Seq<u8>)
    ensures
        join_comma(ps.push(c)) == if ps.len() == 0 { c } else { join_comma(ps) + seq![44u8] + c },
{
    assert(ps.push(c).drop_last() =~= ps);
    if ps.len() == 0 {
        assert(ps.push(c)[0] == c);
    }
}

/// One record, with what the CSV line shows of it.
pub struct CsvRecord<'a> {
    pub ts: &'a str,
    pub ep: u8,
    pub sess_id: &'a str,
    pub thrd_id: &'a str,
    pub username: &'a str,
    pub trxid: &'a str,
    pub statement: &'a str,
    pub appname: &'a str,
    pub client_ip: &'a str,
    pub tag: Option<&'a str>,
    pub sql: &'a str,
    /// Execution time in whole milliseconds.
    pub exec_time_ms: i64,
    pub row_count: i64,
    pub exec_id: i64,
    /// The record carries performance metrics (an execution id or a
    /// positive execution time); without them the three cells stay empty.
    pub has_metrics: bool,
}

/// The cell of field `idx` of a record, or `None` when the field is left
/// out of the line (performance metrics switched off, `normalized_sql`
/// without normalisation, an index past the last field).
pub open spec fn cell(r: CsvRecord, idx: int, normalize: bool, ns: Option<&str>, include_pm: bool) -> Option<Seq<u8>> {
    if idx == 0 {
        Some(encode_utf8(r.ts@))
    } else if idx == 1 {
        Some(udec(r.ep as nat))
    } else if idx == 2 {
        Some(encode_utf8(r.sess_id@))
    } else if idx == 3 {
        Some(encode_utf8(r.thrd_id@))
    } else if idx == 4 {
        Some(encode_utf8(r.username@))
    } else if idx == 5 {
        Some(encode_utf8(r.trxid@))
    } else if idx == 6 {
        Some(encode_utf8(r.statement@))
    } else if idx == 7 {
        Some(encode_utf8(r.appname@))
    } else if idx == 8 {
        Some(encode_utf8(stripped_ip(r.client_ip@)))
    } else if idx == 9 {
        Some(
            match r.tag {
                Some(t) => encode_utf8(t@),
                None => Seq::empty(),
            },
        )
    } else if idx == 10 {
        Some(quoted(encode_utf8(r.sql@)))
    } else if 11 <= idx <= 13 {
        if !include_pm {
            None
        } else if !r.has_metrics {
            Some(Seq::empty())
        } else if idx == 11 {
            Some(idec(r.exec_time_ms as int))
        } else if idx == 12 {
            Some(idec(r.row_count as int))
        } else {
            Some(idec(r.exec_id as int))
        }
    } else if idx == 14 {
        if !normalize {
            None
        } else {
            Some(
                match ns {
                    Some(n) => quoted(encode_utf8(n@)),
                    None => Seq::empty(),
                },
            )
        }
    } else {
        None
    }
}

/// The cells of the fields `idxs`, in order, left-out fields skipped.
pub open spec fn cells(r: CsvRecord, idxs: Seq<usize>, normalize: bool, ns: Option<&str>, include_pm: bool) -> Seq<Seq<u8>>
    decreases idxs.len(),
{
    if idxs.len() == 0 {
        Seq::empty()
    } else {
        let rest = cells(r, idxs.drop_last(), normalize, ns, include_pm);
        match cell(r, idxs.last() as int, normalize, ns, include_pm) {
            Some(c) => rest.push(c),
            None => rest,
        }
    }
}

/// The CSV line of a record: every field in column order when the mask
/// holds all fields, else the fields of `ordered` in that order; then a
/// newline.
pub open spec fn record_line(r: CsvRecord, normalize: bool, ns: Option<&str>, mask: FieldMask, ordered: Seq<usize>, include_pm: bool) -> Seq<u8> {
    let idxs = if mask.0 == ALL_FIELDS { all_positions() } else { ordered };
    join_comma(cells(r, idxs, normalize, ns, include_pm)) + seq![10u8]
}

fn cell_present(idx: usize, normalize: bool, include_pm: bool) -> (b: bool)
    ensures
        forall|r: CsvRecord, ns: Option<&str>| #[trigger] cell(r, idx as int, normalize, ns, include_pm) is Some <==> b,
{
    if idx <= 10 {
        true
    } else if idx <= 13 {
        include_pm
    } else if idx == 14 {
        normalize
    } else {
        false
    }
}

fn push_cell(buf: &mut Vec<u8>, r: &CsvRecord, idx: usize, normalize: bool, ns: Option<&str>, include_pm: bool)
    requires
        cell(*r, idx as int, normalize, ns, include_pm) is Some,
        idx == 8 ==> ip_cut_ok(r.client_ip@),
    ensures
        final(buf)@ == old(buf)@ + cell(*r, idx as int, normalize, ns, include_pm)->0,
{
    let ghost c = cell(*r, idx as int, normalize, ns, include_pm)->0;
    if idx == 0 {
        append_bytes(buf, r.ts.as_bytes());
    } else if idx == 1 {
        push_udec(buf, r.ep as u64);
    } else if idx == 2 {
        append_bytes(buf, r.sess_id.as_bytes());
    } else if idx == 3 {
        append_bytes(buf, r.thrd_id.as_bytes());
    } else if idx == 4 {
        append_bytes(buf, r.username.as_bytes());
    } else if idx == 5 {
        append_bytes(buf, r.trxid.as_bytes());
    } else if idx == 6 {
        append_bytes(buf, r.statement.as_bytes());
    } else if idx == 7 {
        append_bytes(buf, r.appname.as_bytes());
    } else if idx == 8 {
        append_bytes(buf, strip_ip_prefix(r.client_ip).as_bytes());
    } else if idx == 9 {
        match r.tag {
            Some(t) => append_bytes(buf, t.as_bytes()),
            None => {
                assert(old(buf)@ + c =~= old(buf)@);
            },
        }
    } else if idx == 10 {
        push_quoted(buf, r.sql);
    } else if idx <= 13 {
        if !r.has_metrics {
            assert(old(buf)@ + c =~= old(buf)@);
        } else if idx == 11 {
            push_idec(buf, r.exec_time_ms);
        } else if idx == 12 {
            push_idec(buf, r.row_count);
        } else {
            push_idec(buf, r.exec_id);
        }
    } else {
        match ns {
            Some(n) => push_quoted(buf, n),
            None => {
                assert(old(buf)@ + c =~= old(buf)@);
            },
        }
    }
}

/// Formats one record as a CSV line into `line` (its previous content is
/// dropped): every field in column order when `mask` holds all fields,
/// else the fields of `ordered` in that order; text cells are written as
/// they are, the SQL and the normalised SQL quoted with `"` doubled.
pub fn write_record_line(
    line: &mut Vec<u8>,
    r: &CsvRecord,
    normalize: bool,
    normalized_sql: Option<&str>,
    mask: FieldMask,
    ordered: &[usize],
    include_pm: bool,
)
    requires
        (mask.0 == ALL_FIELDS || ordered@.contains(8usize)) ==> ip_cut_ok(r.client_ip@),
    ensures
        final(line)@ == record_line(*r, normalize, normalized_sql, mask, ordered@, include_pm),
{
    line.clear();
    let all = mask.0 == ALL_FIELDS;
    let n: usize = if all { FIELD_COUNT } else { ordered.len() };
    let ghost idxs = if all { all_positions() } else { ordered@ };
    let mut need_sep = false;
    let mut j: usize = 0;
    while j < n
        invariant
            j <= n,
            n == idxs.len(),
            idxs == (if all { all_positions() } else { ordered@ }),
            all == (mask.0 == ALL_FIELDS),
            (mask.0 == ALL_FIELDS || ordered@.contains(8usize)) ==> ip_cut_ok(r.client_ip@),
            line@ == join_comma(cells(*r, idxs.take(j as int), normalize, normalized_sql, include_pm)),
            need_sep == (cells(*r, idxs.take(j as int), normalize, normalized_sql, include_pm).len() > 0),
        decreases n - j,
    {
        let idx: usize = if all { j } else { ordered[j] };
        assert(idxs[j as int] == idx);
        if !all && idx == 8 {
            assert(ordered@[j as int] == 8usize);
            assert(ordered@.contains(8usize));
        }
        assert(idxs.take(j + 1).drop_last() =~= idxs.take(j as int));
        assert(idxs.take(j + 1).last() == idx);
        let ghost before = cells(*r, idxs.take(j as int), normalize, normalized_sql, include_pm);
        if cell_present(idx, normalize, include_pm) {
            assert(cell(*r, idx as int, normalize, normalized_sql, include_pm) is Some);
            if need_sep {
                line.push(44u8);
            }
            push_cell(line, r, idx, normalize, normalized_sql, include_pm);
            proof {
                lemma_join_push(before, cell(*r, idx as int, normalize, normalized_sql, include_pm)->0);
            }
            need_sep = true;
        } else {
            assert(cell(*r, idx as int, normalize, normalized_sql, include_pm) is None);
        }
        j += 1;
    }
    assert(idxs.take(j as int) =~= idxs);
    line.push(10u8);
}

// ───────────────────────────── CSV header ─────────────────────────────

/// The header cell of field `idx`, or `None` when the field is left out.
pub open spec fn header_cell(idx: int, normalize: bool, include_pm: bool) -> Option<Seq<u8>> {
    if idx == 14 && !normalize {
        None
    } else if 11 <= idx <= 13 && !include_pm {
        None
    } else {
        Some(encode_utf8(field_name(idx)))
    }
}

pub open spec fn header_cells(idxs: Seq<usize>, normalize: bool, include_pm: bool) -> Seq<Seq<u8>>
    decreases idxs.len(),
{
    if idxs.len() == 0 {
        Seq::empty()
    } else {
        let rest = header_cells(idxs.drop_last(), normalize, include_pm);
        match header_cell(idxs.last() as int, normalize, include_pm) {
            Some(c) => rest.push(c),
            None => rest,
        }
    }
}

/// The CSV header: the names of the fields of `ordered` that the lines
/// hold, comma-separated, then a newline.
pub fn build_header(ordered: &[usize], normalize: bool, include_pm: bool) -> (h: Vec<u8>)
    requires
        forall|k: int| 0 <= k < ordered@.len() ==> #[trigger] ordered@[k] < FIELD_COUNT,
    ensures
        h@ == join_comma(header_cells(ordered@, normalize, include_pm)) + seq![10u8],
{
    let mut h: Vec<u8> = Vec::new();
    let mut first = true;
    let mut j: usize = 0;
    while j < ordered.len()
        invariant
            j <= ordered.len(),
            forall|k: int| 0 <= k < ordered@.len() ==> #[trigger] ordered@[k] < FIELD_COUNT,
            h@ == join_comma(header_cells(ordered@.take(j as int), normalize, include_pm)),
            first == (header_cells(ordered@.take(j as int), normalize, include_pm).len() == 0),
        decreases ordered.len() - j,
    {
        let idx = ordered[j];
        assert(ordered@.take(j + 1).drop_last() =~= ordered@.take(j as int));
        let ghost before = header_cells(ordered@.take(j as int), normalize, include_pm);
        let skip = (idx == 14 && !normalize) || (11 <= idx && idx <= 13 && !include_pm);
        if !skip {
            if !first {
                h.push(44u8);
            }
            first = false;
            let name = field_name_at(idx);
            append_bytes(&mut h, name.as_bytes());
            proof {
                lemma_join_push(before, encode_utf8(field_name(idx as int)));
            }
        }
        j += 1;
    }
    assert(ordered@.take(j as int) =~= ordered@);
    h.push(10u8);
    h
}

// ───────────────────────────── template statistics rows ─────────────────────────────

/// The header of the template statistics file.
pub open spec fn companion_header() -> Seq<char> {
    "template_key,count,avg_us,min_us,max_us,p50_us,p95_us,p99_us,first_seen,last_seen\n"@
}

/// The header line of the template statistics file.
pub fn companion_header_line() -> (r: &'static str)
    ensures
        r@ == companion_header(),
{
    "template_key,count,avg_us,min_us,max_us,p50_us,p95_us,p99_us,first_seen,last_seen\n"
}

/// One row of the template statistics file.
pub open spec fn companion_row(s: TemplateStats) -> Seq<u8> {
    quoted(encode_utf8(s.template_key@)) + seq![44u8] + udec(s.count as nat) + seq![44u8]
        + udec(s.avg_us as nat) + seq![44u8] + udec(s.min_us as nat) + seq![44u8]
        + udec(s.max_us as nat) + seq![44u8] + udec(s.p50_us as nat) + seq![44u8]
        + udec(s.p95_us as nat) + seq![44u8] + udec(s.p99_us as nat) + seq![44u8]
        + quoted(encode_utf8(s.first_seen@)) + seq![44u8] + quoted(encode_utf8(s.last_seen@))
        + seq![10u8]
}

/// Formats one template statistics row into `buf` (its previous content
/// is dropped): the key and the two timestamps quoted, the numbers in
/// decimal.
pub fn format_companion_row(buf: &mut Vec<u8>, s: &TemplateStats)
    ensures
        final(buf)@ == companion_row(*s),
{
    buf.clear();
    push_quoted(buf, s.template_key.as_str());
    buf.push(44u8);
    push_udec(buf, s.count);
    buf.push(44u8);
    push_udec(buf, s.avg_us);
    buf.push(44u8);
    push_udec(buf, s.min_us);
    buf.push(44u8);
    push_udec(buf, s.max_us);
    buf.push(44u8);
    push_udec(buf, s.p50_us);
    buf.push(44u8);
    push_udec(buf, s.p95_us);
    buf.push(44u8);
    push_udec(buf, s.p99_us);
    buf.push(44u8);
    push_quoted(buf, s.first_seen.as_str());
    buf.push(44u8);
    push_quoted(buf, s.last_seen.as_str());
    buf.push(10u8);
    assert(buf@ =~= companion_row(*s));
}

} // verus!
