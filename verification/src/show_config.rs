//! The lines of `show-config`: each section of the effective configuration
//! with its settings, a setting marked when `--diff` is on and it differs
//! from the default configuration.

use vstd::prelude::*;
use crate::config::{csv_default_view, Config};
use crate::filters::strings_view;
use crate::sqlite_sql::join_comma_space;
use crate::text::{dec, decimal_string, owned};

verus! {

/// One line of the listing.
#[derive(Debug)]
pub enum ShowLine {
    /// A section title such as `[logging]`.
    Section(String),
    /// A setting; `changed` marks a value that differs from the default.
    Entry { key: String, value: String, changed: bool },
    /// The empty line after a section.
    Blank,
}

/// What a line says.
pub ghost enum LineView {
    Section(Seq<char>),
    Entry(Seq<char>, Seq<char>, bool),
    Blank,
}

impl ShowLine {
    pub open spec fn view_line(&self) -> LineView {
        match self {
            ShowLine::Section(s) => LineView::Section(s@),
            ShowLine::Entry { key, value, changed } => LineView::Entry(key@, value@, *changed),
            ShowLine::Blank => LineView::Blank,
        }
    }
}

pub open spec fn lines_view(v: Seq<ShowLine>) -> Seq<LineView> {
    v.map_values(|l: ShowLine| l.view_line())
}

/// `true` or `false`.
pub open spec fn bool_text(b: bool) -> Seq<char> {
    if b {
        "true"@
    } else {
        "false"@
    }
}

/// A setting, marked with `diff` when it differs from `default` (a setting
/// without default always differs).
pub open spec fn kv(key: Seq<char>, value: Seq<char>, default: Option<Seq<char>>, diff: bool) -> LineView {
    LineView::Entry(key, value, diff && default != Some(value))
}

/// What `{:?}` writes for a list of strings (`["a", "b"]`, each string
/// escaped as `Debug` escapes it).
pub uninterp spec fn debug_string_list(v: Seq<Seq<char>>) -> Seq<char>;

/// `{:?}` of a list of strings.
/// Trusted: the result is the `Debug` text of the list, a function of the
/// strings alone, named `debug_string_list`.
#[verifier::external_body]
fn debug_list(v: &Vec<String>) -> (r: String)
    ensures
        r@ == debug_string_list(strings_view(v@)),
{
    format!("{:?}", v)
}

pub open spec fn part_sqllog(cfg: Config, diff: bool) -> Seq<LineView> {
    seq![LineView::Section("[sqllog]"@), kv("path"@, cfg.sqllog.path@, Some("sqllogs"@), diff), LineView::Blank]
}

pub open spec fn part_logging(cfg: Config, diff: bool) -> Seq<LineView> {
    seq![
        LineView::Section("[logging]"@),
        kv("file"@, cfg.logging.file@, Some("logs/sqllog2db.log"@), diff),
        kv("level"@, cfg.logging.level@, Some("info"@), diff),
        kv("retention_days"@, dec(cfg.logging.retention_days as nat), Some(dec(7)), diff),
        LineView::Blank,
    ]
}

pub open spec fn part_csv(cfg: Config, diff: bool) -> Seq<LineView> {
    match cfg.exporter.csv {
        Some(c) => seq![
            LineView::Section("[exporter.csv]"@),
            kv("file"@, c.file@, Some(csv_default_view().0), diff),
            kv("overwrite"@, bool_text(c.overwrite), Some(bool_text(csv_default_view().1)), diff),
            kv("append"@, bool_text(c.append), Some(bool_text(csv_default_view().2)), diff),
            LineView::Blank,
        ],
        None => Seq::empty(),
    }
}

pub open spec fn part_sqlite(cfg: Config, diff: bool) -> Seq<LineView> {
    match cfg.exporter.sqlite {
        Some(q) => seq![
            LineView::Section("[exporter.sqlite]"@),
            kv("database_url"@, q.database_url@, None, diff),
            kv("table_name"@, q.table_name@, None, diff),
            kv("overwrite"@, bool_text(q.overwrite), None, diff),
            kv("append"@, bool_text(q.append), None, diff),
            LineView::Blank,
        ],
        None => Seq::empty(),
    }
}

pub open spec fn part_replace(cfg: Config, diff: bool) -> Seq<LineView> {
    match cfg.features.replace_parameters {
        Some(r) => seq![LineView::Section("[features.replace_parameters]"@), kv("enable"@, bool_text(r.enable), None, diff)]
            + (if r.placeholders@.len() > 0 {
                seq![kv("placeholders"@, debug_string_list(strings_view(r.placeholders@)), None, diff)]
            } else {
                Seq::empty()
            }) + seq![LineView::Blank],
        None => Seq::empty(),
    }
}

pub open spec fn opt_view(o: Option<String>) -> Option<Seq<char>> {
    match o {
        Some(s) => Some(s@),
        None => None,
    }
}

pub open spec fn opt_line(key: Seq<char>, value: Option<Seq<char>>, diff: bool) -> Seq<LineView> {
    match value {
        Some(v) => seq![kv(key, v, None, diff)],
        None => Seq::empty(),
    }
}

pub open spec fn part_filters(cfg: Config, diff: bool) -> Seq<LineView> {
    match cfg.features.filters {
        Some(f) => seq![LineView::Section("[features.filters]"@), kv("enable"@, bool_text(f.enable), None, diff)]
            + opt_line("start_ts"@, opt_view(f.meta.start_ts), diff)
            + opt_line("end_ts"@, opt_view(f.meta.end_ts), diff)
            + opt_line("trxids"@, match f.meta.trxids { Some(ids) => Some(dec(ids@.len()) + " entries"@), None => None }, diff)
            + opt_line("usernames"@, match f.meta.usernames {
                Some(u) => Some(join_comma_space(strings_view(u@))),
                None => None,
            }, diff)
            + opt_line("client_ips"@, match f.meta.client_ips {
                Some(ips) => Some(join_comma_space(strings_view(ips@))),
                None => None,
            }, diff)
            + seq![LineView::Blank],
        None => Seq::empty(),
    }
}

/// The lines of a configuration: its sections in order, each followed by
/// an empty line; the exporter and feature sections only when configured.
pub open spec fn spec_show_lines(cfg: Config, diff: bool) -> Seq<LineView> {
    part_sqllog(cfg, diff) + part_logging(cfg, diff) + part_csv(cfg, diff) + part_sqlite(cfg, diff)
        + part_replace(cfg, diff) + part_filters(cfg, diff)
}

fn bool_string(b: bool) -> (r: String)
    ensures
        r@ == bool_text(b),
{
    if b {
        owned("true")
    } else {
        owned("false")
    }
}

/// The items joined by `, `.
fn join_list(v: &Vec<String>) -> (r: String)
    ensures
        r@ == join_comma_space(strings_view(v@)),
{
    let mut r = String::new();
    let mut i: usize = 0;
    while i < v.len()
        invariant
            i <= v@.len(),
            r@ == join_comma_space(strings_view(v@).take(i as int)),
        decreases v@.len() - i,
    {
        let ghost parts = strings_view(v@).take(i + 1);
        assert(parts.drop_last() =~= strings_view(v@).take(i as int));
        if i > 0 {
            r.append(", ");
        }
        r.append(v[i].as_str());
        i += 1;
        assert(r@ =~= join_comma_space(parts));
    }
    assert(strings_view(v@).take(i as int) =~= strings_view(v@));
    r
}

fn entry(key: &str, value: String, default: Option<&str>, diff: bool) -> (l: ShowLine)
    ensures
        l.view_line() == kv(key@, value@, match default {
            Some(d) => Some(d@),
            None => None,
        }, diff),
{
    let changed = diff && match default {
        Some(d) => !crate::text::str_eq(d, value.as_str()),
        None => true,
    };
    ShowLine::Entry { key: owned(key), value, changed }
}

fn section(title: &str) -> (l: ShowLine)
    ensures
        l.view_line() == LineView::Section(title@),
{
    ShowLine::Section(owned(title))
}

fn push_line(out: &mut Vec<ShowLine>, l: ShowLine)
    ensures
        lines_view(final(out)@) == lines_view(old(out)@).push(l.view_line()),
{
    let ghost before = out@;
    out.push(l);
    assert(lines_view(out@) =~= lines_view(before).push(l.view_line()));
}

fn push_opt(out: &mut Vec<ShowLine>, key: &str, value: Option<String>, diff: bool)
    ensures
        lines_view(final(out)@) == lines_view(old(out)@) + opt_line(key@, opt_view(value), diff),
{
    match value {
        Some(v) => push_line(out, entry(key, v, None, diff)),
        None => {
            assert(lines_view(out@) + Seq::<LineView>::empty() =~= lines_view(out@));
        },
    }
}

fn show_sqllog(cfg: &Config, diff: bool, def: &Config) -> (r: Vec<ShowLine>)
    requires
        def.sqllog.path@ == "sqllogs"@,
    ensures
        lines_view(r@) == part_sqllog(*cfg, diff),
{
    let mut out: Vec<ShowLine> = Vec::new();
    push_line(&mut out, section("[sqllog]"));
    push_line(&mut out, entry("path", owned(cfg.sqllog.path.as_str()), Some(def.sqllog.path.as_str()), diff));
    push_line(&mut out, ShowLine::Blank);
    assert(lines_view(out@) =~= part_sqllog(*cfg, diff));
    out
}

fn show_logging(cfg: &Config, diff: bool, def: &Config) -> (r: Vec<ShowLine>)
    requires
        def.logging.file@ == "logs/sqllog2db.log"@,
        def.logging.level@ == "info"@,
        def.logging.retention_days == 7,
    ensures
        lines_view(r@) == part_logging(*cfg, diff),
{
    let mut out: Vec<ShowLine> = Vec::new();
    push_line(&mut out, section("[logging]"));
    push_line(&mut out, entry("file", owned(cfg.logging.file.as_str()), Some(def.logging.file.as_str()), diff));
    push_line(&mut out, entry("level", owned(cfg.logging.level.as_str()), Some(def.logging.level.as_str()), diff));
    let days = decimal_string(cfg.logging.retention_days as u64);
    let ddays = decimal_string(def.logging.retention_days as u64);
    push_line(&mut out, entry("retention_days", days, Some(ddays.as_str()), diff));
    push_line(&mut out, ShowLine::Blank);
    assert(lines_view(out@) =~= part_logging(*cfg, diff));
    out
}

fn show_exporters(cfg: &Config, diff: bool) -> (r: Vec<ShowLine>)
    ensures
        lines_view(r@) == part_csv(*cfg, diff) + part_sqlite(*cfg, diff),
{
    let mut out: Vec<ShowLine> = Vec::new();
    if let Some(c) = &cfg.exporter.csv {
        let dcsv = crate::config::CsvExporter::default();
        push_line(&mut out, section("[exporter.csv]"));
        push_line(&mut out, entry("file", owned(c.file.as_str()), Some(dcsv.file.as_str()), diff));
        let dow = bool_string(dcsv.overwrite);
        let dap = bool_string(dcsv.append);
        push_line(&mut out, entry("overwrite", bool_string(c.overwrite), Some(dow.as_str()), diff));
        push_line(&mut out, entry("append", bool_string(c.append), Some(dap.as_str()), diff));
        push_line(&mut out, ShowLine::Blank);
    }
    let ghost mid = lines_view(out@);
    assert(mid =~= part_csv(*cfg, diff));
    if let Some(q) = &cfg.exporter.sqlite {
        push_line(&mut out, section("[exporter.sqlite]"));
        push_line(&mut out, entry("database_url", owned(q.database_url.as_str()), None, diff));
        push_line(&mut out, entry("table_name", owned(q.table_name.as_str()), None, diff));
        push_line(&mut out, entry("overwrite", bool_string(q.overwrite), None, diff));
        push_line(&mut out, entry("append", bool_string(q.append), None, diff));
        push_line(&mut out, ShowLine::Blank);
    }
    assert(lines_view(out@) =~= mid + part_sqlite(*cfg, diff));
    out
}

fn show_replace(cfg: &Config, diff: bool) -> (r: Vec<ShowLine>)
    ensures
        lines_view(r@) == part_replace(*cfg, diff),
{
    let mut out: Vec<ShowLine> = Vec::new();
    if let Some(rp) = &cfg.features.replace_parameters {
        push_line(&mut out, section("[features.replace_parameters]"));
        push_line(&mut out, entry("enable", bool_string(rp.enable), None, diff));
        if rp.placeholders.len() > 0 {
            push_line(&mut out, entry("placeholders", debug_list(&rp.placeholders), None, diff));
        }
        push_line(&mut out, ShowLine::Blank);
        assert(lines_view(out@) =~= part_replace(*cfg, diff));
    } else {
        assert(lines_view(out@) =~= part_replace(*cfg, diff));
    }
    out
}

fn copy_opt(o: &Option<String>) -> (r: Option<String>)
    ensures
        opt_view(r) == opt_view(*o),
{
    match o {
        Some(s) => Some(owned(s.as_str())),
        None => None,
    }
}

fn count_text(ids: &Option<Vec<String>>) -> (r: Option<String>)
    ensures
        opt_view(r) == match *ids {
            Some(v) => Some(dec(v@.len()) + " entries"@),
            None => None::<Seq<char>>,
        },
{
    match ids {
        Some(v) => {
            let mut t = decimal_string(v.len() as u64);
            t.append(" entries");
            Some(t)
        },
        None => None,
    }
}

fn joined(v: &Option<Vec<String>>) -> (r: Option<String>)
    ensures
        opt_view(r) == match *v {
            Some(u) => Some(join_comma_space(strings_view(u@))),
            None => None::<Seq<char>>,
        },
{
    match v {
        Some(u) => Some(join_list(u)),
        None => None,
    }
}

fn show_filters(cfg: &Config, diff: bool) -> (r: Vec<ShowLine>)
    ensures
        lines_view(r@) == part_filters(*cfg, diff),
{
    let mut out: Vec<ShowLine> = Vec::new();
    match &cfg.features.filters {
        Some(f) => {
            push_line(&mut out, section("[features.filters]"));
            push_line(&mut out, entry("enable", bool_string(f.enable), None, diff));
            let ghost g0 = lines_view(out@);
            push_opt(&mut out, "start_ts", copy_opt(&f.meta.start_ts), diff);
            push_opt(&mut out, "end_ts", copy_opt(&f.meta.end_ts), diff);
            push_opt(&mut out, "trxids", count_text(&f.meta.trxids), diff);
            push_opt(&mut out, "usernames", joined(&f.meta.usernames), diff);
            push_opt(&mut out, "client_ips", joined(&f.meta.client_ips), diff);
            let ghost g5 = lines_view(out@);
            push_line(&mut out, ShowLine::Blank);
            proof {
                let head = seq![LineView::Section("[features.filters]"@), kv("enable"@, bool_text(f.enable), None, diff)];
                assert(g0 =~= head);
                assert(lines_view(out@) =~= g5.push(LineView::Blank));
                assert(g5 =~= head + opt_line("start_ts"@, opt_view(f.meta.start_ts), diff)
                    + opt_line("end_ts"@, opt_view(f.meta.end_ts), diff)
                    + opt_line("trxids"@, match f.meta.trxids { Some(ids) => Some(dec(ids@.len()) + " entries"@), None => None }, diff)
                    + opt_line("usernames"@, match f.meta.usernames {
                        Some(u) => Some(join_comma_space(strings_view(u@))),
                        None => None,
                    }, diff)
                    + opt_line("client_ips"@, match f.meta.client_ips {
                        Some(ips) => Some(join_comma_space(strings_view(ips@))),
                        None => None,
                    }, diff));
                assert(lines_view(out@) =~= part_filters(*cfg, diff));
            }
        },
        None => {
            assert(lines_view(out@) =~= part_filters(*cfg, diff));
        },
    }
    out
}

fn append_lines(out: &mut Vec<ShowLine>, more: Vec<ShowLine>)
    ensures
        lines_view(final(out)@) == lines_view(old(out)@) + lines_view(more@),
{
    let mut more = more;
    let ghost a = out@;
    let ghost b = more@;
    out.append(&mut more);
    assert(lines_view(out@) =~= lines_view(a) + lines_view(b));
}

/// The lines of `show-config` for `cfg`; with `diff`, settings that
/// differ from the default configuration are marked.
pub fn show_config_lines(cfg: &Config, diff: bool) -> (r: Vec<ShowLine>)
    ensures
        lines_view(r@) == spec_show_lines(*cfg, diff),
{
    let def = Config::default();
    let mut out = show_sqllog(cfg, diff, &def);
    append_lines(&mut out, show_logging(cfg, diff, &def));
    append_lines(&mut out, show_exporters(cfg, diff));
    append_lines(&mut out, show_replace(cfg, diff));
    append_lines(&mut out, show_filters(cfg, diff));
    out
}

} // verus!
