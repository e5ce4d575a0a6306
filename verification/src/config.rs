//! The configuration of the tool, its checks and its `--set KEY=VALUE`
//! overrides.

use vstd::prelude::*;
use crate::error::{ConfigError, Error};
use crate::features::{field_name, field_name_at, field_pos, field_position, FeaturesConfig, ReplaceParametersConfig, FIELD_COUNT};
use crate::filters::{compiled_from, opt_patterns, opt_strings, filters_patterns_accepted, strings_view, CompiledMetaFilters, CompiledSqlFilters, FiltersFeature};
use crate::text::{alnum_c, alpha_c, chars_of, decimal_string, dec, eq_ignore_case, is_alnum, is_alpha, is_blank, is_digit, owned, str_eq, str_eq_ignore_case, str_is_blank, substring};

verus! {

/// The error `Error::Config(ConfigError::InvalidValue { .. })` with these
/// field, value and reason.
pub open spec fn is_invalid_value(e: Error, field: Seq<char>, value: Seq<char>, reason: Seq<char>) -> bool {
    e matches Error::Config(ConfigError::InvalidValue { field: f, value: v, reason: r })
        && f@ == field && v@ == value && r@ == reason
}

// ───────────────────────────── [sqllog] ─────────────────────────────

/// The `[sqllog]` section.
#[derive(Debug, Clone)]
pub struct SqllogConfig {
    /// A directory, a single file or a glob pattern of log files.
    pub path: String,
}

impl Default for SqllogConfig {
    fn default() -> (c: Self)
        ensures
            c.path@ == "sqllogs"@,
    {
        SqllogConfig { path: owned("sqllogs") }
    }
}

impl SqllogConfig {
    /// The input path is not blank.
    pub fn validate(&self) -> (r: Result<(), Error>)
        ensures
            match r {
                Ok(_) => !is_blank(self.path@),
                Err(e) => is_blank(self.path@) && is_invalid_value(e, "sqllog.path"@, self.path@, "Input path cannot be empty"@),
            },
    {
        if str_is_blank(self.path.as_str()) {
            return Err(Error::Config(ConfigError::InvalidValue {
                field: owned("sqllog.path"),
                value: self.path.clone(),
                reason: owned("Input path cannot be empty"),
            }));
        }
        Ok(())
    }
}

// ───────────────────────────── [logging] ─────────────────────────────

/// The `[logging]` section.
#[derive(Debug, Clone)]
pub struct LoggingConfig {
    pub file: String,
    pub level: String,
    pub retention_days: usize,
}

impl Default for LoggingConfig {
    fn default() -> (c: Self)
        ensures
            c.file@ == "logs/sqllog2db.log"@,
            c.level@ == "info"@,
            c.retention_days == 7,
    {
        LoggingConfig { file: owned("logs/sqllog2db.log"), level: owned("info"), retention_days: 7 }
    }
}

/// The accepted log levels.
pub open spec fn log_levels() -> Seq<Seq<char>> {
    seq!["trace"@, "debug"@, "info"@, "warn"@, "error"@]
}

/// `l` is one of the log levels, ignoring ASCII case.
pub open spec fn log_level_ok(l: Seq<char>) -> bool {
    exists|i: int| 0 <= i < 5 && eq_ignore_case(#[trigger] log_levels()[i], l)
}

pub open spec fn retention_ok(d: usize) -> bool {
    1 <= d <= 365
}

pub open spec fn logging_ok(c: LoggingConfig) -> bool {
    !is_blank(c.file@) && log_level_ok(c.level@) && retention_ok(c.retention_days)
}

/// The error that `LoggingConfig::validate` gives for `c`, which fails.
pub open spec fn logging_error(c: LoggingConfig, e: Error) -> bool {
    if is_blank(c.file@) {
        is_invalid_value(e, "logging.file"@, c.file@, "Log file path cannot be empty"@)
    } else if !log_level_ok(c.level@) {
        e matches Error::Config(ConfigError::InvalidLogLevel { level, valid_levels })
            && level@ == c.level@ && strings_view(valid_levels@) == log_levels()
    } else {
        is_invalid_value(e, "logging.retention_days"@, dec(c.retention_days as nat), "Retention days must be between 1 and 365"@)
    }
}

fn log_level_known(level: &str) -> (b: bool)
    ensures
        b == log_level_ok(level@),
{
    let r = str_eq_ignore_case("trace", level) || str_eq_ignore_case("debug", level)
        || str_eq_ignore_case("info", level) || str_eq_ignore_case("warn", level)
        || str_eq_ignore_case("error", level);
    proof {
        let ls = log_levels();
        assert(ls[0] == "trace"@ && ls[1] == "debug"@ && ls[2] == "info"@ && ls[3] == "warn"@ && ls[4] == "error"@);
        if r {
            if eq_ignore_case("trace"@, level@) {
                assert(eq_ignore_case(ls[0], level@));
            } else if eq_ignore_case("debug"@, level@) {
                assert(eq_ignore_case(ls[1], level@));
            } else if eq_ignore_case("info"@, level@) {
                assert(eq_ignore_case(ls[2], level@));
            } else if eq_ignore_case("warn"@, level@) {
                assert(eq_ignore_case(ls[3], level@));
            } else {
                assert(eq_ignore_case(ls[4], level@));
            }
        }
    }
    r
}

fn log_level_names() -> (v: Vec<String>)
    ensures
        strings_view(v@) == log_levels(),
{
    let mut v: Vec<String> = Vec::new();
    v.push(owned("trace"));
    v.push(owned("debug"));
    v.push(owned("info"));
    v.push(owned("warn"));
    v.push(owned("error"));
    assert(strings_view(v@) =~= log_levels());
    v
}

impl LoggingConfig {
    /// The log file is not blank, the level is one of `trace`, `debug`,
    /// `info`, `warn`, `error` (any ASCII case) and the retention is 1 to
    /// 365 days; the first check that fails gives the error.
    pub fn validate(&self) -> (r: Result<(), Error>)
        ensures
            match r {
                Ok(_) => logging_ok(*self),
                Err(e) => !logging_ok(*self) && logging_error(*self, e),
            },
    {
        if str_is_blank(self.file.as_str()) {
            return Err(Error::Config(ConfigError::InvalidValue {
                field: owned("logging.file"),
                value: self.file.clone(),
                reason: owned("Log file path cannot be empty"),
            }));
        }
        if !log_level_known(self.level.as_str()) {
            return Err(Error::Config(ConfigError::InvalidLogLevel {
                level: self.level.clone(),
                valid_levels: log_level_names(),
            }));
        }
        if self.retention_days == 0 || self.retention_days > 365 {
            return Err(Error::Config(ConfigError::InvalidValue {
                field: owned("logging.retention_days"),
                value: decimal_string(self.retention_days as u64),
                reason: owned("Retention days must be between 1 and 365"),
            }));
        }
        Ok(())
    }
}

// ───────────────────────────── [exporter] ─────────────────────────────

/// The `[exporter.csv]` section.
#[derive(Debug, Clone)]
pub struct CsvExporter {
    pub file: String,
    pub overwrite: bool,
    pub append: bool,
    /// Write the `exectime`, `rowcount` and `exec_id` columns.
    pub include_performance_metrics: bool,
}

/// What a CSV section holds: file, overwrite, append, metrics.
pub open spec fn csv_view(c: CsvExporter) -> (Seq<char>, bool, bool, bool) {
    (c.file@, c.overwrite, c.append, c.include_performance_metrics)
}

pub open spec fn csv_default_view() -> (Seq<char>, bool, bool, bool) {
    ("outputs/sqllog.csv"@, true, false, true)
}

impl Default for CsvExporter {
    fn default() -> (c: Self)
        ensures
            csv_view(c) == csv_default_view(),
    {
        CsvExporter {
            file: owned("outputs/sqllog.csv"),
            overwrite: true,
            append: false,
            include_performance_metrics: true,
        }
    }
}

impl CsvExporter {
    /// The output file is not blank.
    pub fn validate(&self) -> (r: Result<(), Error>)
        ensures
            match r {
                Ok(_) => !is_blank(self.file@),
                Err(e) => is_blank(self.file@) && is_invalid_value(e, "exporter.csv.file"@, self.file@, "CSV output file path cannot be empty"@),
            },
    {
        if str_is_blank(self.file.as_str()) {
            return Err(Error::Config(ConfigError::InvalidValue {
                field: owned("exporter.csv.file"),
                value: self.file.clone(),
                reason: owned("CSV output file path cannot be empty"),
            }));
        }
        Ok(())
    }
}

/// The `[exporter.sqlite]` section.
#[derive(Debug, Clone)]
pub struct SqliteExporter {
    pub database_url: String,
    pub table_name: String,
    pub overwrite: bool,
    pub append: bool,
    /// Rows per insert transaction.
    pub batch_size: usize,
}

/// What a SQLite section holds: url, table, overwrite, append, batch size.
pub open spec fn sqlite_view(c: SqliteExporter) -> (Seq<char>, Seq<char>, bool, bool, usize) {
    (c.database_url@, c.table_name@, c.overwrite, c.append, c.batch_size)
}

pub open spec fn sqlite_default_view() -> (Seq<char>, Seq<char>, bool, bool, usize) {
    ("export/sqllog2db.db"@, "sqllog_records"@, true, false, 10000)
}

impl Default for SqliteExporter {
    fn default() -> (c: Self)
        ensures
            sqlite_view(c) == sqlite_default_view(),
    {
        SqliteExporter {
            database_url: owned("export/sqllog2db.db"),
            table_name: owned("sqllog_records"),
            overwrite: true,
            append: false,
            batch_size: 10000,
        }
    }
}

/// `t` matches `^[a-zA-Z_][a-zA-Z0-9_]*$`.
pub open spec fn is_ascii_ident(t: Seq<char>) -> bool {
    &&& t.len() > 0
    &&& (is_alpha(t[0]) || t[0] == '_')
    &&& forall|i: int| 1 <= i < t.len() ==> (is_alnum(#[trigger] t[i]) || t[i] == '_')
}

fn ascii_ident(s: &str) -> (b: bool)
    ensures
        b == is_ascii_ident(s@),
{
    let v = chars_of(s);
    if v.len() == 0 || !(alpha_c(v[0]) || v[0] == '_') {
        return false;
    }
    let mut i: usize = 1;
    while i < v.len()
        invariant
            1 <= i <= v.len(),
            v@ == s@,
            forall|k: int| 1 <= k < i ==> (is_alnum(#[trigger] v@[k]) || v@[k] == '_'),
        decreases v.len() - i,
    {
        if !(alnum_c(v[i]) || v[i] == '_') {
            return false;
        }
        i += 1;
    }
    true
}

pub open spec fn sqlite_ok(c: SqliteExporter) -> bool {
    !is_blank(c.database_url@) && !is_blank(c.table_name@) && is_ascii_ident(c.table_name@) && c.batch_size > 0
}

pub open spec fn sqlite_error(c: SqliteExporter, e: Error) -> bool {
    if is_blank(c.database_url@) {
        is_invalid_value(e, "exporter.sqlite.database_url"@, c.database_url@, "SQLite database URL cannot be empty"@)
    } else if is_blank(c.table_name@) {
        is_invalid_value(e, "exporter.sqlite.table_name"@, c.table_name@, "SQLite table name cannot be empty"@)
    } else if !is_ascii_ident(c.table_name@) {
        is_invalid_value(e, "exporter.sqlite.table_name"@, c.table_name@,
            "table name must match ^[a-zA-Z_][a-zA-Z0-9_]*$ (ASCII identifiers only)"@)
    } else {
        is_invalid_value(e, "exporter.sqlite.batch_size"@, "0"@, "batch_size must be greater than 0"@)
    }
}

impl SqliteExporter {
    /// The URL and the table name are not blank, the table name is an
    /// ASCII identifier and the batch size is positive; the first check
    /// that fails gives the error.
    pub fn validate(&self) -> (r: Result<(), Error>)
        ensures
            match r {
                Ok(_) => sqlite_ok(*self),
                Err(e) => !sqlite_ok(*self) && sqlite_error(*self, e),
            },
    {
        if str_is_blank(self.database_url.as_str()) {
            return Err(Error::Config(ConfigError::InvalidValue {
                field: owned("exporter.sqlite.database_url"),
                value: self.database_url.clone(),
                reason: owned("SQLite database URL cannot be empty"),
            }));
        }
        if str_is_blank(self.table_name.as_str()) {
            return Err(Error::Config(ConfigError::InvalidValue {
                field: owned("exporter.sqlite.table_name"),
                value: self.table_name.clone(),
                reason: owned("SQLite table name cannot be empty"),
            }));
        }
        if !ascii_ident(self.table_name.as_str()) {
            return Err(Error::Config(ConfigError::InvalidValue {
                field: owned("exporter.sqlite.table_name"),
                value: self.table_name.clone(),
                reason: owned("table name must match ^[a-zA-Z_][a-zA-Z0-9_]*$ (ASCII identifiers only)"),
            }));
        }
        if self.batch_size == 0 {
            return Err(Error::Config(ConfigError::InvalidValue {
                field: owned("exporter.sqlite.batch_size"),
                value: owned("0"),
                reason: owned("batch_size must be greater than 0"),
            }));
        }
        Ok(())
    }
}

/// The `[exporter]` section.
#[derive(Debug, Clone)]
pub struct ExporterConfig {
    pub csv: Option<CsvExporter>,
    pub sqlite: Option<SqliteExporter>,
}

impl Default for ExporterConfig {
    fn default() -> (c: Self)
        ensures
            c.csv matches Some(x) && csv_view(x) == csv_default_view(),
            c.sqlite is None,
    {
        ExporterConfig { csv: Some(CsvExporter::default()), sqlite: None }
    }
}

pub open spec fn exporter_ok(c: ExporterConfig) -> bool {
    &&& (c.csv is Some || c.sqlite is Some)
    &&& (c.csv matches Some(x) ==> !is_blank(x.file@))
    &&& (c.sqlite matches Some(s) ==> sqlite_ok(s))
}

pub open spec fn exporter_error(c: ExporterConfig, e: Error) -> bool {
    if c.csv is None && c.sqlite is None {
        e matches Error::Config(ConfigError::NoExporters)
    } else if c.csv matches Some(x) && is_blank(x.file@) {
        is_invalid_value(e, "exporter.csv.file"@, c.csv->0.file@, "CSV output file path cannot be empty"@)
    } else {
        sqlite_error(c.sqlite->0, e)
    }
}

impl ExporterConfig {
    /// At least one exporter is configured and each configured one is valid.
    pub fn validate(&self) -> (r: Result<(), Error>)
        ensures
            match r {
                Ok(_) => exporter_ok(*self),
                Err(e) => !exporter_ok(*self) && exporter_error(*self, e),
            },
    {
        if self.csv.is_none() && self.sqlite.is_none() {
            return Err(Error::Config(ConfigError::NoExporters));
        }
        if let Some(csv) = &self.csv {
            csv.validate()?;
        }
        if let Some(sqlite) = &self.sqlite {
            sqlite.validate()?;
        }
        Ok(())
    }
}

// ───────────────────────────── [resume] ─────────────────────────────

/// The `[resume]` section.
#[derive(Debug, Clone)]
pub struct ResumeConfig {
    /// The file that records the fingerprints of processed log files.
    pub state_file: String,
}

impl Default for ResumeConfig {
    fn default() -> (c: Self)
        ensures
            c.state_file@ == ".sqllog2db_state.toml"@,
    {
        ResumeConfig { state_file: owned(".sqllog2db_state.toml") }
    }
}

// ───────────────────────────── the whole configuration ─────────────────────────────

/// The configuration file.
#[derive(Debug, Clone)]
pub struct Config {
    pub sqllog: SqllogConfig,
    pub logging: LoggingConfig,
    pub features: FeaturesConfig,
    pub exporter: ExporterConfig,
    pub resume: ResumeConfig,
}

impl Default for Config {
    fn default() -> (c: Self)
        ensures
            c.sqllog.path@ == "sqllogs"@,
            c.logging.file@ == "logs/sqllog2db.log"@,
            c.logging.level@ == "info"@,
            c.logging.retention_days == 7,
            c.features.filters is None,
            c.features.replace_parameters is None,
            c.features.fields is None,
            c.features.template_analysis is None,
            c.features.charts is None,
            c.exporter.csv matches Some(x) && csv_view(x) == csv_default_view(),
            c.exporter.sqlite is None,
            c.resume.state_file@ == ".sqllog2db_state.toml"@,
    {
        Config {
            sqllog: SqllogConfig::default(),
            logging: LoggingConfig::default(),
            features: FeaturesConfig::default(),
            exporter: ExporterConfig::default(),
            resume: ResumeConfig::default(),
        }
    }
}

/// `"ts, ep, ..."`: the first `n` field names joined by `", "`.
pub open spec fn field_names_joined(n: int) -> Seq<char>
    decreases n,
{
    if n <= 1 {
        field_name(0)
    } else {
        field_names_joined(n - 1) + ", "@ + field_name(n - 1)
    }
}

/// The reason given for an unknown name in `features.fields`.
pub open spec fn unknown_field_reason(name: Seq<char>) -> Seq<char> {
    "unknown field '"@ + name + "'; valid fields: "@ + field_names_joined(15)
}

pub open spec fn fields_ok(o: Option<Vec<String>>) -> bool {
    o matches Some(v) ==> forall|k: int| 0 <= k < v@.len() ==> (#[trigger] field_pos(v@[k]@)) is Some
}

pub open spec fn filters_ok(o: Option<FiltersFeature>) -> bool {
    o matches Some(f) ==> (f.enable ==> filters_patterns_accepted(f))
}

/// Everything that `Config::validate` checks holds.
pub open spec fn config_ok(c: Config) -> bool {
    &&& logging_ok(c.logging)
    &&& exporter_ok(c.exporter)
    &&& !is_blank(c.sqllog.path@)
    &&& filters_ok(c.features.filters)
    &&& fields_ok(c.features.fields)
}

/// `e` is the error of the first check of `Config::validate` that `c` fails.
pub open spec fn config_error(c: Config, e: Error) -> bool {
    if !logging_ok(c.logging) {
        logging_error(c.logging, e)
    } else if !exporter_ok(c.exporter) {
        exporter_error(c.exporter, e)
    } else if is_blank(c.sqllog.path@) {
        is_invalid_value(e, "sqllog.path"@, c.sqllog.path@, "Input path cannot be empty"@)
    } else if !filters_ok(c.features.filters) {
        exists|n: int| 0 <= n < 9 && #[trigger] crate::filters::regex_list_error(c.features.filters->0, n, e)
    } else {
        let v = c.features.fields->0@;
        exists|k: int| {
            &&& 0 <= k < v.len()
            &&& (#[trigger] field_pos(v[k]@)) is None
            &&& forall|j: int| 0 <= j < k ==> (#[trigger] field_pos(v[j]@)) is Some
            &&& is_invalid_value(e, "features.fields"@, v[k]@, unknown_field_reason(v[k]@))
        }
    }
}

fn field_names_joined_exec() -> (s: String)
    ensures
        s@ == field_names_joined(15),
{
    let mut s = owned(field_name_at(0));
    let mut i: usize = 1;
    while i < FIELD_COUNT
        invariant
            1 <= i <= FIELD_COUNT,
            s@ == field_names_joined(i as int),
        decreases FIELD_COUNT - i,
    {
        s.append(", ");
        s.append(field_name_at(i));
        i += 1;
    }
    s
}

/// Every name of `features.fields` is a field, or the error for the first
/// one that is not.
fn check_fields(fields: &Option<Vec<String>>) -> (r: Result<(), Error>)
    ensures
        match r {
            Ok(_) => fields_ok(*fields),
            Err(e) => !fields_ok(*fields) && exists|k: int| {
                &&& 0 <= k < fields->0@.len()
                &&& (#[trigger] field_pos(fields->0@[k]@)) is None
                &&& forall|j: int| 0 <= j < k ==> (#[trigger] field_pos(fields->0@[j]@)) is Some
                &&& is_invalid_value(e, "features.fields"@, fields->0@[k]@, unknown_field_reason(fields->0@[k]@))
            },
        },
{
    if let Some(names) = fields {
        let mut i: usize = 0;
        while i < names.len()
            invariant
                i <= names.len(),
                *fields == Some(*names),
                forall|j: int| 0 <= j < i ==> (#[trigger] field_pos(names@[j]@)) is Some,
            decreases names.len() - i,
        {
            match field_position(names[i].as_str()) {
                Some(_) => {},
                None => {
                    let mut reason = owned("unknown field '");
                    reason.append(names[i].as_str());
                    reason.append("'; valid fields: ");
                    reason.append(field_names_joined_exec().as_str());
                    let e = Error::Config(ConfigError::InvalidValue {
                        field: owned("features.fields"),
                        value: names[i].clone(),
                        reason,
                    });
                    assert(is_invalid_value(e, "features.fields"@, names@[i as int]@, unknown_field_reason(names@[i as int]@)));
                    return Err(e);
                },
            }
            i += 1;
        }
    }
    Ok(())
}

/// The compiled filters that `validate_and_compile` hands back.
pub open spec fn compiled_pair_of(f: FiltersFeature, m: CompiledMetaFilters, q: CompiledSqlFilters) -> bool {
    &&& compiled_from(opt_patterns(m.usernames), f.meta.usernames)
    &&& compiled_from(opt_patterns(m.client_ips), f.meta.client_ips)
    &&& compiled_from(opt_patterns(m.sess_ids), f.meta.sess_ids)
    &&& compiled_from(opt_patterns(m.thrd_ids), f.meta.thrd_ids)
    &&& compiled_from(opt_patterns(m.statements), f.meta.statements)
    &&& compiled_from(opt_patterns(m.appnames), f.meta.appnames)
    &&& compiled_from(opt_patterns(m.tags), f.meta.tags)
    &&& opt_strings(m.trxids) == opt_strings(f.meta.trxids)
    &&& compiled_from(opt_patterns(q.include_patterns), f.record_sql.include_patterns)
    &&& compiled_from(opt_patterns(q.exclude_patterns), f.record_sql.exclude_patterns)
}

impl Config {
    /// Checks, in order: the logging section, the exporters, the input
    /// path, the regular expressions of enabled filters and the names of
    /// `features.fields`; the first failure is the error.
    pub fn validate(&self) -> (r: Result<(), Error>)
        ensures
            match r {
                Ok(_) => config_ok(*self),
                Err(e) => !config_ok(*self) && config_error(*self, e),
            },
    {
        self.logging.validate()?;
        self.exporter.validate()?;
        self.sqllog.validate()?;
        if let Some(filters) = &self.features.filters {
            if filters.enable {
                filters.validate_regexes()?;
            }
        }
        check_fields(&self.features.fields)?;
        Ok(())
    }

    /// `validate`, and the compiled filters when filters are enabled.
    pub fn validate_and_compile(&self) -> (r: Result<Option<(CompiledMetaFilters, CompiledSqlFilters)>, Error>)
        ensures
            match r {
                Ok(o) => config_ok(*self) && match o {
                    Some((m, q)) => self.features.filters matches Some(f) && f.enable && compiled_pair_of(f, m, q),
                    None => !(self.features.filters is Some && self.features.filters->0.enable),
                },
                Err(e) => !config_ok(*self) && config_error(*self, e),
            },
    {
        self.logging.validate()?;
        self.exporter.validate()?;
        self.sqllog.validate()?;
        let compiled = match &self.features.filters {
            Some(filters) => {
                if filters.enable {
                    filters.validate_regexes()?;
                    let meta = CompiledMetaFilters::from_meta(&filters.meta);
                    let sql = CompiledSqlFilters::from_sql_filters(&filters.record_sql);
                    Some((meta, sql))
                } else {
                    None
                }
            },
            None => None,
        };
        check_fields(&self.features.fields)?;
        Ok(compiled)
    }
}

// ───────────────────────────── overrides ─────────────────────────────

/// The boolean that an override value spells.
pub open spec fn parse_bool_spec(v: Seq<char>) -> Option<bool> {
    if v == "true"@ || v == "1"@ || v == "yes"@ {
        Some(true)
    } else if v == "false"@ || v == "0"@ || v == "no"@ {
        Some(false)
    } else {
        None
    }
}

pub open spec fn all_digits(d: Seq<char>) -> bool {
    forall|i: int| 0 <= i < d.len() ==> is_digit(#[trigger] d[i])
}

/// The number that the decimal digits `d` spell.
pub open spec fn digits_value(d: Seq<char>) -> int
    decreases d.len(),
{
    if d.len() == 0 {
        0
    } else {
        digits_value(d.drop_last()) * 10 + (d.last() as int - 48)
    }
}

/// `usize::from_str`: an optional `+`, then one or more decimal digits
/// whose value fits in `usize`.
pub open spec fn parse_usize_spec(v: Seq<char>) -> Option<usize> {
    let d = if v.len() > 0 && v[0] == '+' { v.skip(1) } else { v };
    if d.len() > 0 && all_digits(d) && digits_value(d) <= usize::MAX {
        Some(digits_value(d) as usize)
    } else {
        None
    }
}

proof fn lemma_digits_value_prefix(d: Seq<char>, k: int)
    requires
        all_digits(d),
        0 <= k <= d.len(),
    ensures
        0 <= digits_value(d.take(k)) <= digits_value(d),
    decreases d.len(),
{
    if d.len() > 0 {
        let e = d.drop_last();
        assert(all_digits(e)) by {
            assert forall|i: int| 0 <= i < e.len() implies is_digit(#[trigger] e[i]) by {
                assert(e[i] == d[i]);
            }
        }
        assert(is_digit(d[d.len() - 1]));
        if k < d.len() {
            lemma_digits_value_prefix(e, k);
            assert(e.take(k) =~= d.take(k));
        } else {
            lemma_digits_value_prefix(e, e.len() as int);
            assert(e.take(e.len() as int) =~= e);
            assert(d.take(k) =~= d);
        }
    }
}

/// `value.parse::<usize>()`.
pub fn parse_usize(value: &str) -> (r: Option<usize>)
    ensures
        r == parse_usize_spec(value@),
{
    let cs = chars_of(value);
    let start: usize = if cs.len() > 0 && cs[0] == '+' { 1 } else { 0 };
    let ghost d = if cs@.len() > 0 && cs@[0] == '+' { cs@.skip(1) } else { cs@ };
    assert(d =~= cs@.skip(start as int));
    if start >= cs.len() {
        return None;
    }
    let mut acc: usize = 0;
    let mut i: usize = start;
    while i < cs.len()
        invariant
            start <= i <= cs.len(),
            cs@ == value@,
            d == cs@.skip(start as int),
            d == (if cs@.len() > 0 && cs@[0] == '+' { cs@.skip(1) } else { cs@ }),
            d.len() > 0,
            acc == digits_value(d.take(i - start)),
            forall|k: int| 0 <= k < i - start ==> is_digit(#[trigger] d[k]),
        decreases cs.len() - i,
    {
        assert(d.take(i - start + 1).drop_last() =~= d.take(i - start));
        assert(d[i - start] == cs@[i as int]);
        if !crate::text::digit_c(cs[i]) {
            assert(!is_digit(d[i - start]));
            assert(!all_digits(d));
            return None;
        }
        let dv: usize = ((cs[i] as u32) - 48) as usize;
        assert(digits_value(d.take(i - start + 1)) == acc * 10 + dv) by {
            assert(d.take(i - start + 1).last() == cs@[i as int]);
        }
        let next = match acc.checked_mul(10) {
            Some(m) => m.checked_add(dv),
            None => None,
        };
        match next {
            Some(n) => {
                acc = n;
            },
            None => {
                proof {
                    if all_digits(d) {
                        lemma_digits_value_prefix(d, i - start + 1);
                        assert(acc * 10 + dv > usize::MAX);
                    }
                }
                return None;
            },
        }
        i += 1;
    }
    assert(d.take(i - start) =~= d);
    Some(acc)
}

/// The override keys, numbered; `-1` for an unknown key.
pub open spec fn key_of(k: Seq<char>) -> int {
    if k == "sqllog.path"@ || k == "sqllog.directory"@ {
        0
    } else if k == "logging.level"@ {
        1
    } else if k == "logging.file"@ {
        2
    } else if k == "logging.retention_days"@ {
        3
    } else if k == "exporter.csv.file"@ {
        4
    } else if k == "exporter.csv.overwrite"@ {
        5
    } else if k == "exporter.csv.append"@ {
        6
    } else if k == "exporter.csv.include_performance_metrics"@ {
        7
    } else if k == "exporter.sqlite.database_url"@ {
        8
    } else if k == "exporter.sqlite.table_name"@ {
        9
    } else if k == "exporter.sqlite.overwrite"@ {
        10
    } else if k == "exporter.sqlite.append"@ {
        11
    } else if k == "exporter.sqlite.batch_size"@ {
        12
    } else if k == "features.filters.enable"@ {
        13
    } else if k == "features.replace_parameters.enable"@ {
        14
    } else {
        -1
    }
}

fn key_index(k: &str) -> (i: i8)
    ensures
        i == key_of(k@),
{
    if str_eq(k, "sqllog.path") || str_eq(k, "sqllog.directory") {
        0
    } else if str_eq(k, "logging.level") {
        1
    } else if str_eq(k, "logging.file") {
        2
    } else if str_eq(k, "logging.retention_days") {
        3
    } else if str_eq(k, "exporter.csv.file") {
        4
    } else if str_eq(k, "exporter.csv.overwrite") {
        5
    } else if str_eq(k, "exporter.csv.append") {
        6
    } else if str_eq(k, "exporter.csv.include_performance_metrics") {
        7
    } else if str_eq(k, "exporter.sqlite.database_url") {
        8
    } else if str_eq(k, "exporter.sqlite.table_name") {
        9
    } else if str_eq(k, "exporter.sqlite.overwrite") {
        10
    } else if str_eq(k, "exporter.sqlite.append") {
        11
    } else if str_eq(k, "exporter.sqlite.batch_size") {
        12
    } else if str_eq(k, "features.filters.enable") {
        13
    } else if str_eq(k, "features.replace_parameters.enable") {
        14
    } else {
        -1
    }
}

fn parse_bool(v: &str) -> (r: Option<bool>)
    ensures
        r == parse_bool_spec(v@),
{
    if str_eq(v, "true") || str_eq(v, "1") || str_eq(v, "yes") {
        Some(true)
    } else if str_eq(v, "false") || str_eq(v, "0") || str_eq(v, "no") {
        Some(false)
    } else {
        None
    }
}

/// The key takes a number.
pub open spec fn numeric_key(i: int) -> bool {
    i == 3 || i == 12
}

/// The key takes a string.
pub open spec fn text_key(i: int) -> bool {
    i == 0 || i == 1 || i == 2 || i == 4 || i == 8 || i == 9
}

/// `key=value` can be applied: the key is known and the value parses.
pub open spec fn one_ok(k: Seq<char>, v: Seq<char>) -> bool {
    let i = key_of(k);
    if i < 0 {
        false
    } else if numeric_key(i) {
        parse_usize_spec(v) is Some
    } else if text_key(i) {
        true
    } else {
        parse_bool_spec(v) is Some
    }
}

/// The error for an override `key=value` that cannot be applied.
pub open spec fn one_error(k: Seq<char>, v: Seq<char>, e: Error) -> bool {
    let i = key_of(k);
    if i < 0 {
        is_invalid_value(e, k, v, "unknown config key '"@ + k + "'"@)
    } else if numeric_key(i) {
        is_invalid_value(e, k, v, "expected a positive integer"@)
    } else {
        is_invalid_value(e, k, v, "expected true/false"@)
    }
}

pub open spec fn csv_base(o: Option<CsvExporter>) -> (Seq<char>, bool, bool, bool) {
    match o {
        Some(c) => csv_view(c),
        None => csv_default_view(),
    }
}

pub open spec fn sqlite_base(o: Option<SqliteExporter>) -> (Seq<char>, Seq<char>, bool, bool, usize) {
    match o {
        Some(c) => sqlite_view(c),
        None => sqlite_default_view(),
    }
}

/// The filters section with `enable` set to `b`: the existing one, or the
/// default (nothing configured) when there was none.
pub open spec fn filters_enabled(o: Option<FiltersFeature>, b: bool) -> FiltersFeature {
    let f = match o {
        Some(f) => f,
        None => crate::filters::filters_default(),
    };
    FiltersFeature { enable: b, meta: f.meta, indicators: f.indicators, sql: f.sql, record_sql: f.record_sql }
}

/// `new` is `old` with the override `key=value` applied; the sections
/// that the key names are created with their defaults when absent.
pub open spec fn one_applied(old: Config, new: Config, k: Seq<char>, v: Seq<char>) -> bool {
    let i = key_of(k);
    let b = parse_bool_spec(v)->0;
    let n = parse_usize_spec(v)->0;
    let c = csv_base(old.exporter.csv);
    let q = sqlite_base(old.exporter.sqlite);
    &&& new.resume == old.resume
    &&& if i == 0 { new.sqllog.path@ == v } else { new.sqllog == old.sqllog }
    &&& if i == 1 {
        new.logging.level@ == v && new.logging.file == old.logging.file && new.logging.retention_days == old.logging.retention_days
    } else if i == 2 {
        new.logging.file@ == v && new.logging.level == old.logging.level && new.logging.retention_days == old.logging.retention_days
    } else if i == 3 {
        new.logging.retention_days == n && new.logging.file == old.logging.file && new.logging.level == old.logging.level
    } else {
        new.logging == old.logging
    }
    &&& if 4 <= i <= 7 {
        new.exporter.csv matches Some(x) && csv_view(x) == (
            if i == 4 { (v, c.1, c.2, c.3) }
            else if i == 5 { (c.0, b, c.2, c.3) }
            else if i == 6 { (c.0, c.1, b, c.3) }
            else { (c.0, c.1, c.2, b) })
    } else {
        new.exporter.csv == old.exporter.csv
    }
    &&& if 8 <= i <= 12 {
        new.exporter.sqlite matches Some(x) && sqlite_view(x) == (
            if i == 8 { (v, q.1, q.2, q.3, q.4) }
            else if i == 9 { (q.0, v, q.2, q.3, q.4) }
            else if i == 10 { (q.0, q.1, b, q.3, q.4) }
            else if i == 11 { (q.0, q.1, q.2, b, q.4) }
            else { (q.0, q.1, q.2, q.3, n) })
    } else {
        new.exporter.sqlite == old.exporter.sqlite
    }
    &&& if i == 13 {
        new.features.filters == Some(filters_enabled(old.features.filters, b))
    } else {
        new.features.filters == old.features.filters
    }
    &&& if i == 14 {
        new.features.replace_parameters matches Some(p) && p.enable == b && match old.features.replace_parameters {
            Some(o) => p.placeholders == o.placeholders,
            None => p.placeholders@.len() == 0,
        }
    } else {
        new.features.replace_parameters == old.features.replace_parameters
    }
    &&& new.features.fields == old.features.fields
    &&& new.features.template_analysis == old.features.template_analysis
    &&& new.features.charts == old.features.charts
}

/// Law: of two overrides of the same key, the later one wins: applying
/// `key=v1` and then `key=v2` leaves the configuration as applying
/// `key=v2` alone would.
pub proof fn lemma_later_override_wins(c0: Config, c1: Config, c2: Config, k: Seq<char>, v1: Seq<char>, v2: Seq<char>)
    requires
        one_ok(k, v1),
        one_ok(k, v2),
        one_applied(c0, c1, k, v1),
        one_applied(c1, c2, k, v2),
    ensures
        one_applied(c0, c2, k, v2),
{
    let i = key_of(k);
    if i == 13 {
        let b2 = parse_bool_spec(v2)->0;
        assert(filters_enabled(c1.features.filters, b2) == filters_enabled(c0.features.filters, b2));
    }
}

fn invalid_value(field: &str, value: &str, reason: String) -> (e: Error)
    ensures
        is_invalid_value(e, field@, value@, reason@),
{
    Error::Config(ConfigError::InvalidValue { field: owned(field), value: owned(value), reason })
}

impl Config {
    /// Applies one override `key=value`.  Strings are taken as they are,
    /// booleans are `true`/`1`/`yes` or `false`/`0`/`no`, numbers are
    /// decimal; an unknown key or a value that does not parse is an error
    /// and leaves the configuration as it was.
    pub fn apply_one(&mut self, key: &str, value: &str) -> (r: Result<(), Error>)
        ensures
            r is Ok <==> one_ok(key@, value@),
            r is Ok ==> one_applied(*old(self), *final(self), key@, value@),
            r matches Err(e) ==> one_error(key@, value@, e) && *final(self) == *old(self),
    {
        let i = key_index(key);
        if i < 0 {
            let mut reason = owned("unknown config key '");
            reason.append(key);
            reason.append("'");
            return Err(invalid_value(key, value, reason));
        }
        if i == 3 || i == 12 {
            let n = match parse_usize(value) {
                Some(n) => n,
                None => {
                    return Err(invalid_value(key, value, owned("expected a positive integer")));
                },
            };
            if i == 3 {
                self.logging.retention_days = n;
            } else {
                let mut x = match self.exporter.sqlite.take() {
                    Some(x) => x,
                    None => SqliteExporter::default(),
                };
                x.batch_size = n;
                self.exporter.sqlite = Some(x);
            }
            return Ok(());
        }
        if i == 0 || i == 1 || i == 2 || i == 4 || i == 8 || i == 9 {
            if i == 0 {
                self.sqllog.path = owned(value);
            } else if i == 1 {
                self.logging.level = owned(value);
            } else if i == 2 {
                self.logging.file = owned(value);
            } else if i == 4 {
                let mut x = match self.exporter.csv.take() {
                    Some(x) => x,
                    None => CsvExporter::default(),
                };
                x.file = owned(value);
                self.exporter.csv = Some(x);
            } else {
                let mut x = match self.exporter.sqlite.take() {
                    Some(x) => x,
                    None => SqliteExporter::default(),
                };
                if i == 8 {
                    x.database_url = owned(value);
                } else {
                    x.table_name = owned(value);
                }
                self.exporter.sqlite = Some(x);
            }
            return Ok(());
        }
        let b = match parse_bool(value) {
            Some(b) => b,
            None => {
                return Err(invalid_value(key, value, owned("expected true/false")));
            },
        };
        if 5 <= i && i <= 7 {
            let mut x = match self.exporter.csv.take() {
                Some(x) => x,
                None => CsvExporter::default(),
            };
            if i == 5 {
                x.overwrite = b;
            } else if i == 6 {
                x.append = b;
            } else {
                x.include_performance_metrics = b;
            }
            self.exporter.csv = Some(x);
        } else if i == 10 || i == 11 {
            let mut x = match self.exporter.sqlite.take() {
                Some(x) => x,
                None => SqliteExporter::default(),
            };
            if i == 10 {
                x.overwrite = b;
            } else {
                x.append = b;
            }
            self.exporter.sqlite = Some(x);
        } else if i == 13 {
            let mut f = match self.features.filters.take() {
                Some(f) => f,
                None => FiltersFeature::default(),
            };
            f.enable = b;
            self.features.filters = Some(f);
        } else {
            let mut p = match self.features.replace_parameters.take() {
                Some(p) => p,
                None => ReplaceParametersConfig::default(),
            };
            p.enable = b;
            self.features.replace_parameters = Some(p);
        }
        Ok(())
    }
}

/// Position of the first `=` of `s` at `i` or after.
pub open spec fn eq_pos_from(s: Seq<char>, i: int) -> Option<int>
    decreases s.len() - i,
{
    if i < 0 || i >= s.len() {
        None
    } else if s[i] == '=' {
        Some(i)
    } else {
        eq_pos_from(s, i + 1)
    }
}

/// `KEY=VALUE` split at its first `=`.
pub open spec fn split_override(s: Seq<char>) -> Option<(Seq<char>, Seq<char>)> {
    match eq_pos_from(s, 0) {
        Some(p) => Some((s.take(p), s.skip(p + 1))),
        None => None,
    }
}

/// The override `s` has the `KEY=VALUE` form and can be applied.
pub open spec fn item_ok(s: Seq<char>) -> bool {
    split_override(s) matches Some((k, v)) && one_ok(k, v)
}

pub open spec fn item_applied(old: Config, new: Config, s: Seq<char>) -> bool {
    split_override(s) matches Some((k, v)) && one_applied(old, new, k, v)
}

/// The error for an override `s` that cannot be applied.
pub open spec fn item_error(s: Seq<char>, e: Error) -> bool {
    match split_override(s) {
        None => is_invalid_value(e, s, ""@, "expected KEY=VALUE format"@),
        Some((k, v)) => one_error(k, v, e),
    }
}

/// `new` is `old` with the overrides `items` applied in order.
pub open spec fn overrides_applied(old: Config, new: Config, items: Seq<Seq<char>>) -> bool
    decreases items.len(),
{
    if items.len() == 0 {
        new == old
    } else {
        exists|mid: Config|
            overrides_applied(old, mid, items.drop_last()) && #[trigger] item_applied(mid, new, items.last())
    }
}

impl Config {
    /// Applies `--set KEY=VALUE` overrides in order.  The first one that
    /// lacks a `=` or cannot be applied stops the run with its error; those
    /// before it stay applied.
    pub fn apply_overrides(&mut self, overrides: &[String]) -> (r: Result<(), Error>)
        ensures
            r is Ok <==> forall|j: int| 0 <= j < overrides@.len() ==> #[trigger] item_ok(overrides@[j]@),
            r is Ok ==> overrides_applied(*old(self), *final(self), strings_view(overrides@)),
            r matches Err(e) ==> exists|j: int| {
                &&& 0 <= j < overrides@.len()
                &&& !item_ok(overrides@[j]@)
                &&& forall|k: int| 0 <= k < j ==> #[trigger] item_ok(overrides@[k]@)
                &&& overrides_applied(*old(self), *final(self), strings_view(overrides@).take(j))
                &&& #[trigger] item_error(overrides@[j]@, e)
            },
    {
        let ghost start = *self;
        let ghost items = strings_view(overrides@);
        let mut i: usize = 0;
        assert(items.take(0) =~= Seq::<Seq<char>>::empty());
        while i < overrides.len()
            invariant
                i <= overrides.len(),
                items == strings_view(overrides@),
                start == *old(self),
                forall|k: int| 0 <= k < i ==> #[trigger] item_ok(overrides@[k]@),
                overrides_applied(start, *self, items.take(i as int)),
            decreases overrides.len() - i,
        {
            let item = overrides[i].as_str();
            assert(items[i as int] == item@);
            let cs = chars_of(item);
            let mut p: usize = 0;
            while p < cs.len() && cs[p] != '='
                invariant
                    p <= cs.len(),
                    eq_pos_from(cs@, 0) == eq_pos_from(cs@, p as int),
                decreases cs.len() - p,
            {
                p += 1;
            }
            if p == cs.len() {
                let e = invalid_value(item, "", owned("expected KEY=VALUE format"));
                assert(item_error(overrides@[i as int]@, e));
                assert(!item_ok(overrides@[i as int]@));
                return Err(e);
            }
            let key = substring(&cs, 0, p);
            let value = substring(&cs, p + 1, cs.len());
            assert(key@ =~= cs@.take(p as int));
            assert(value@ =~= cs@.skip(p + 1));
            assert(split_override(item@) == Some((key@, value@)));
            let ghost before = *self;
            match self.apply_one(key.as_str(), value.as_str()) {
                Ok(_) => {},
                Err(e) => {
                    assert(item_error(overrides@[i as int]@, e));
                    assert(!item_ok(overrides@[i as int]@));
                    return Err(e);
                },
            }
            proof {
                assert(items.take(i + 1).drop_last() =~= items.take(i as int));
                assert(items.take(i + 1).last() == item@);
                assert(overrides_applied(start, before, items.take(i + 1).drop_last()));
                assert(item_applied(before, *self, items.take(i + 1).last()));
                assert(overrides_applied(start, *self, items.take(i + 1)));
            }
            i += 1;
        }
        assert(items.take(i as int) =~= items);
        Ok(())
    }
}

/// Applies `--verbose` (level `debug`) or else `--quiet` (level `error`)
/// to the logging section; nothing changes without either.
pub fn apply_cli_flags_to_config(cfg: &mut Config, verbose: bool, quiet: bool)
    ensures
        verbose ==> final(cfg).logging.level@ == "debug"@,
        !verbose && quiet ==> final(cfg).logging.level@ == "error"@,
        !verbose && !quiet ==> *final(cfg) == *old(cfg),
        final(cfg).logging.file == old(cfg).logging.file,
        final(cfg).logging.retention_days == old(cfg).logging.retention_days,
        final(cfg).sqllog == old(cfg).sqllog,
        final(cfg).features == old(cfg).features,
        final(cfg).exporter == old(cfg).exporter,
        final(cfg).resume == old(cfg).resume,
{
    if verbose {
        cfg.logging.level = owned("debug");
    } else if quiet {
        cfg.logging.level = owned("error");
    }
}

/// Applies `--from` / `--to`: with either, the filters section (created
/// with nothing configured when absent) is enabled and gets the given
/// start and end; without both nothing changes.
pub fn apply_date_range(cfg: &mut Config, from: Option<&str>, to: Option<&str>)
    ensures
        from is None && to is None ==> *final(cfg) == *old(cfg),
        from is Some || to is Some ==> {
            let base = match old(cfg).features.filters {
                Some(f) => f,
                None => crate::filters::filters_default(),
            };
            &&& final(cfg).features.filters matches Some(f)
            &&& f.enable
            &&& match from {
                Some(s) => f.meta.start_ts matches Some(t) && t@ == s@,
                None => f.meta.start_ts == base.meta.start_ts,
            }
            &&& match to {
                Some(s) => f.meta.end_ts matches Some(t) && t@ == s@,
                None => f.meta.end_ts == base.meta.end_ts,
            }
            &&& f.meta.sess_ids == base.meta.sess_ids
            &&& f.meta.thrd_ids == base.meta.thrd_ids
            &&& f.meta.usernames == base.meta.usernames
            &&& f.meta.trxids == base.meta.trxids
            &&& f.meta.statements == base.meta.statements
            &&& f.meta.appnames == base.meta.appnames
            &&& f.meta.client_ips == base.meta.client_ips
            &&& f.meta.tags == base.meta.tags
            &&& f.indicators == base.indicators
            &&& f.sql == base.sql
            &&& f.record_sql == base.record_sql
            &&& final(cfg).features.replace_parameters == old(cfg).features.replace_parameters
            &&& final(cfg).features.fields == old(cfg).features.fields
            &&& final(cfg).features.template_analysis == old(cfg).features.template_analysis
            &&& final(cfg).features.charts == old(cfg).features.charts
            &&& final(cfg).sqllog == old(cfg).sqllog
            &&& final(cfg).logging == old(cfg).logging
            &&& final(cfg).exporter == old(cfg).exporter
            &&& final(cfg).resume == old(cfg).resume
        },
{
    if from.is_none() && to.is_none() {
        return;
    }
    let mut f = match cfg.features.filters.take() {
        Some(f) => f,
        None => FiltersFeature::default(),
    };
    f.enable = true;
    if let Some(s) = from {
        f.meta.start_ts = Some(owned(s));
    }
    if let Some(t) = to {
        f.meta.end_ts = Some(owned(t));
    }
    cfg.features.filters = Some(f);
}

} // verus!
