//! Record filters.
//!
//! Two families are applied to log records:
//! - the filters of the configuration (`FiltersFeature`): a time range that
//!   every kept record must fall in, then metadata lists of which a record
//!   must hit one (substring match; exact match for transaction ids);
//! - their compiled form (`CompiledMetaFilters`, `CompiledSqlFilters`), where
//!   each configured field holds regular expressions, a record must satisfy
//!   every configured field, and one expression of a field suffices.

#![verifier::loop_isolation(false)]

use vstd::prelude::*;
use crate::error::ConfigError;
use crate::text::{chars_of, clone_opt_strings, clone_strings, contains, owned, seq_lt, starts_with, str_contains, str_eq, str_lt, str_starts_with};

verus! {

// ───────────────────────────── regular expressions ─────────────────────────────

/// `regex::Regex`, held by [`Pattern`].
#[verifier::external_type_specification]
#[verifier::external_body]
pub struct ExRegex(regex::Regex);

/// Whether `regex::Regex::new` accepts `pattern` (its syntax is valid and
/// the compiled program stays within the default size limit).
pub uninterp spec fn regex_accepts(pattern: Seq<char>) -> bool;

/// Whether the regular expression `pattern` matches somewhere in `text`
/// (`regex::Regex::is_match`).
pub uninterp spec fn regex_matches(pattern: Seq<char>, text: Seq<char>) -> bool;

/// The message of the `regex::Error` that `regex::Regex::new` gives for a
/// pattern it rejects (its `Display` text).
pub uninterp spec fn regex_error(pattern: Seq<char>) -> Seq<char>;

/// A compiled regular expression together with the pattern it was compiled
/// from.  Values of this type are only made by [`compile`], so `re` is
/// always the compiled form of `source`.
#[derive(Debug)]
pub struct Pattern {
    source: String,
    re: regex::Regex,
}

impl View for Pattern {
    type V = Seq<char>;

    closed spec fn view(&self) -> Seq<char> {
        self.source@
    }
}

/// Compiles `pattern` (`regex::Regex::new`); the error is the message of
/// `regex::Error`.
/// Trusted: `Regex::new` succeeds exactly on the patterns named by
/// `regex_accepts`, the result is paired with the pattern itself, and the
/// error message is the one named by `regex_error`.
#[verifier::external_body]
pub(crate) fn compile(pattern: &str) -> (r: Result<Pattern, String>)
    ensures
        r is Ok <==> regex_accepts(pattern@),
        r matches Ok(p) ==> p@ == pattern@,
        r matches Err(m) ==> m@ == regex_error(pattern@),
{
    match regex::Regex::new(pattern) {
        Ok(re) => Ok(Pattern { source: pattern.to_string(), re }),
        Err(e) => Err(e.to_string()),
    }
}

/// Whether `p` matches somewhere in `text` (`regex::Regex::is_match`).
/// Trusted: the result is `is_match` of the compiled form of `p@`, named
/// `regex_matches`.
#[verifier::external_body]
pub(crate) fn is_match(p: &Pattern, text: &str) -> (b: bool)
    ensures
        b == regex_matches(p@, text@),
{
    p.re.is_match(text)
}

pub open spec fn strings_view(v: Seq<String>) -> Seq<Seq<char>> {
    v.map_values(|s: String| s@)
}

pub open spec fn opt_strings(o: Option<Vec<String>>) -> Option<Seq<Seq<char>>> {
    match o {
        Some(v) => Some(strings_view(v@)),
        None => None,
    }
}

pub open spec fn patterns_view(v: Seq<Pattern>) -> Seq<Seq<char>> {
    v.map_values(|p: Pattern| p@)
}

pub open spec fn opt_patterns(o: Option<Vec<Pattern>>) -> Option<Seq<Seq<char>>> {
    match o {
        Some(v) => Some(patterns_view(v@)),
        None => None,
    }
}

/// Every pattern of the list compiles.
pub open spec fn all_accepted(o: Option<Seq<Seq<char>>>) -> bool {
    match o {
        Some(ps) => all_accepted_seq(ps),
        None => true,
    }
}

/// Every pattern of `ps` compiles.
pub open spec fn all_accepted_seq(ps: Seq<Seq<char>>) -> bool {
    forall|i: int| 0 <= i < ps.len() ==> regex_accepts(#[trigger] ps[i])
}

/// Index of the first pattern of `ps` that does not compile, if any.
pub open spec fn first_rejected(ps: Seq<Seq<char>>, i: int) -> Option<int>
    decreases ps.len() - i,
{
    if i < 0 || i >= ps.len() {
        None
    } else if !regex_accepts(ps[i]) {
        Some(i)
    } else {
        first_rejected(ps, i + 1)
    }
}

proof fn lemma_first_rejected(ps: Seq<Seq<char>>, i: int)
    requires
        0 <= i <= ps.len(),
    ensures
        first_rejected(ps, i) is None <==> forall|k: int| i <= k < ps.len() ==> regex_accepts(#[trigger] ps[k]),
        first_rejected(ps, i) matches Some(k) ==> i <= k < ps.len() && !regex_accepts(ps[k]),
    decreases ps.len() - i,
{
    if i < ps.len() {
        lemma_first_rejected(ps, i + 1);
    }
}

/// The regular-expression lists of a configuration compile: `None` or
/// empty lists give `Ok(None)`, a list whose patterns all compile gives them
/// compiled in order, and otherwise the first pattern that does not compile
/// is returned as the error.
pub fn compile_patterns(patterns: Option<&[String]>) -> (r: Result<Option<Vec<Pattern>>, String>)
    ensures
        match patterns {
            None => r == Ok::<Option<Vec<Pattern>>, String>(None),
            Some(ps) => {
                let v = strings_view(ps@);
                if v.len() == 0 {
                    r is Ok && r->Ok_0 is None
                } else {
                    match first_rejected(v, 0) {
                        None => r matches Ok(Some(c)) && patterns_view(c@) == v,
                        Some(k) => r matches Err(bad) && bad@ == v[k],
                    }
                }
            },
        },
{
    match patterns {
        None => Ok(None),
        Some(ps) => {
            if ps.len() == 0 {
                return Ok(None);
            }
            let ghost v = strings_view(ps@);
            let mut out: Vec<Pattern> = Vec::new();
            let mut i: usize = 0;
            while i < ps.len()
                invariant
                    i <= ps.len(),
                    v == strings_view(ps@),
                    patterns_view(out@) == v.take(i as int),
                    first_rejected(v, 0) == first_rejected(v, i as int),
                decreases ps.len() - i,
            {
                assert(v[i as int] == ps@[i as int]@);
                match compile(ps[i].as_str()) {
                    Ok(p) => {
                        let ghost before = patterns_view(out@);
                        out.push(p);
                        assert(patterns_view(out@) =~= v.take(i + 1));
                    },
                    Err(_) => {
                        assert(v[i as int] == ps@[i as int]@);
                        return Err(ps[i].clone());
                    },
                }
                i += 1;
            }
            assert(v.take(i as int) =~= v);
            Ok(Some(out))
        },
    }
}

/// Every configured pattern of a list compiles, or the error names the
/// field, the first pattern that does not compile and why.
pub fn validate_pattern_list(field: &str, patterns: Option<&[String]>) -> (r: Result<(), crate::error::Error>)
    ensures
        match patterns {
            None => r is Ok,
            Some(ps) => match first_rejected(strings_view(ps@), 0) {
                None => r is Ok,
                Some(k) => r matches Err(crate::error::Error::Config(ConfigError::InvalidValue { field: f, value: v, reason: why }))
                    && f@ == field@ && v@ == ps@[k]@ && why@ == "invalid regex: "@ + regex_error(ps@[k]@),
            },
        },
{
    match patterns {
        None => Ok(()),
        Some(ps) => {
            let ghost v = strings_view(ps@);
            let mut i: usize = 0;
            while i < ps.len()
                invariant
                    i <= ps.len(),
                    v == strings_view(ps@),
                    first_rejected(v, 0) == first_rejected(v, i as int),
                decreases ps.len() - i,
            {
                match compile(ps[i].as_str()) {
                    Ok(_) => {},
                    Err(e) => {
                        let mut reason = owned("invalid regex: ");
                        reason.append(e.as_str());
                        assert(v[i as int] == ps@[i as int]@);
                        return Err(
                            crate::error::Error::Config(
                                ConfigError::InvalidValue {
                                    field: owned(field),
                                    value: ps[i].clone(),
                                    reason,
                                },
                            ),
                        );
                    },
                }
                i += 1;
            }
            Ok(())
        },
    }
}

// ───────────────────────────── configured filters ─────────────────────────────

/// The metadata fields of a record that the filters look at.
#[derive(Debug)]
pub struct RecordMeta<'a> {
    pub trxid: &'a str,
    pub ip: &'a str,
    pub sess: &'a str,
    pub thrd: &'a str,
    pub user: &'a str,
    pub stmt: &'a str,
    pub app: &'a str,
    pub tag: Option<&'a str>,
}

/// Record-level metadata filters: a record is kept when it hits one of the
/// configured lists.
#[derive(Debug, Clone)]
pub struct MetaFilters {
    pub start_ts: Option<String>,
    pub end_ts: Option<String>,
    pub sess_ids: Option<Vec<String>>,
    pub thrd_ids: Option<Vec<String>>,
    pub usernames: Option<Vec<String>>,
    /// Transaction ids, matched exactly (a set: order and repeats do not matter).
    pub trxids: Option<Vec<String>>,
    pub statements: Option<Vec<String>>,
    pub appnames: Option<Vec<String>>,
    pub client_ips: Option<Vec<String>>,
    pub tags: Option<Vec<String>>,
}

/// Transaction-level indicator filters.
#[derive(Debug, Clone)]
pub struct IndicatorFilters {
    pub exec_ids: Option<Vec<i64>>,
    pub min_runtime_ms: Option<u32>,
    pub min_row_count: Option<u32>,
}

/// SQL text filters, matched by substring.
#[derive(Debug, Clone)]
pub struct SqlFilters {
    pub include_patterns: Option<Vec<String>>,
    pub exclude_patterns: Option<Vec<String>>,
}

/// The `[features.filters]` section.
#[derive(Debug, Clone)]
pub struct FiltersFeature {
    pub enable: bool,
    pub meta: MetaFilters,
    pub indicators: IndicatorFilters,
    /// Transaction-level SQL filters (pre-scan).
    pub sql: SqlFilters,
    /// Record-level SQL filters (regular expressions once compiled).
    pub record_sql: SqlFilters,
}

impl Default for MetaFilters {
    fn default() -> (r: Self)
        ensures
            r.start_ts is None && r.end_ts is None && r.sess_ids is None && r.thrd_ids is None
                && r.usernames is None && r.trxids is None && r.statements is None
                && r.appnames is None && r.client_ips is None && r.tags is None,
    {
        MetaFilters {
            start_ts: None,
            end_ts: None,
            sess_ids: None,
            thrd_ids: None,
            usernames: None,
            trxids: None,
            statements: None,
            appnames: None,
            client_ips: None,
            tags: None,
        }
    }
}

impl Default for IndicatorFilters {
    fn default() -> (r: Self)
        ensures
            r.exec_ids is None && r.min_runtime_ms is None && r.min_row_count is None,
    {
        IndicatorFilters { exec_ids: None, min_runtime_ms: None, min_row_count: None }
    }
}

impl Default for SqlFilters {
    fn default() -> (r: Self)
        ensures
            r.include_patterns is None && r.exclude_patterns is None,
    {
        SqlFilters { include_patterns: None, exclude_patterns: None }
    }
}

/// The filters section with nothing configured.
pub open spec fn filters_default() -> FiltersFeature {
    FiltersFeature {
        enable: false,
        meta: MetaFilters {
            start_ts: None,
            end_ts: None,
            sess_ids: None,
            thrd_ids: None,
            usernames: None,
            trxids: None,
            statements: None,
            appnames: None,
            client_ips: None,
            tags: None,
        },
        indicators: IndicatorFilters { exec_ids: None, min_runtime_ms: None, min_row_count: None },
        sql: SqlFilters { include_patterns: None, exclude_patterns: None },
        record_sql: SqlFilters { include_patterns: None, exclude_patterns: None },
    }
}

impl Default for FiltersFeature {
    fn default() -> (r: Self)
        ensures
            r == filters_default(),
            !r.enable && r.meta.start_ts is None && r.meta.end_ts is None && !meta_has(r.meta)
                && !indicators_has(r.indicators) && !sql_has(r.sql) && !sql_has(r.record_sql),
    {
        FiltersFeature {
            enable: false,
            meta: MetaFilters::default(),
            indicators: IndicatorFilters::default(),
            sql: SqlFilters::default(),
            record_sql: SqlFilters::default(),
        }
    }
}

/// A list is configured and not empty.
pub open spec fn nonempty(o: Option<Vec<String>>) -> bool {
    o matches Some(v) && v@.len() > 0
}

pub open spec fn meta_has(m: MetaFilters) -> bool {
    nonempty(m.trxids) || nonempty(m.client_ips) || nonempty(m.sess_ids) || nonempty(m.thrd_ids)
        || nonempty(m.usernames) || nonempty(m.statements) || nonempty(m.appnames) || nonempty(m.tags)
}

pub open spec fn indicators_has(f: IndicatorFilters) -> bool {
    (f.exec_ids matches Some(v) && v@.len() > 0) || f.min_runtime_ms is Some || f.min_row_count is Some
}

pub open spec fn sql_has(f: SqlFilters) -> bool {
    nonempty(f.include_patterns) || nonempty(f.exclude_patterns)
}

/// `val` contains one of the configured strings.
pub open spec fn hits_substring(o: Option<Vec<String>>, val: Seq<char>) -> bool {
    match o {
        Some(v) => v@.len() > 0 && exists|i: int| 0 <= i < v@.len() && contains(val, #[trigger] v@[i]@),
        None => false,
    }
}

/// `val` is one of the configured strings.
pub open spec fn hits_exact(o: Option<Vec<String>>, val: Seq<char>) -> bool {
    match o {
        Some(v) => v@.len() > 0 && exists|i: int| 0 <= i < v@.len() && #[trigger] v@[i]@ == val,
        None => false,
    }
}

pub open spec fn meta_keeps(m: MetaFilters, r: RecordMeta) -> bool {
    ||| hits_exact(m.trxids, r.trxid@)
    ||| hits_substring(m.client_ips, r.ip@)
    ||| hits_substring(m.sess_ids, r.sess@)
    ||| hits_substring(m.thrd_ids, r.thrd@)
    ||| hits_substring(m.usernames, r.user@)
    ||| hits_substring(m.statements, r.stmt@)
    ||| hits_substring(m.appnames, r.app@)
    ||| (r.tag matches Some(t) && hits_substring(m.tags, t@))
}

/// The time-range part of `should_keep`: a timestamp before the start (that
/// does not begin with it) or after the end (that does not begin with it)
/// is out of range.
pub open spec fn in_time_range(m: MetaFilters, ts: Seq<char>) -> bool {
    &&& (m.start_ts matches Some(s) ==> !(seq_lt(ts, s@) && !starts_with(ts, s@)))
    &&& (m.end_ts matches Some(e) ==> !(seq_lt(e@, ts) && !starts_with(ts, e@)))
}

pub open spec fn spec_should_keep(f: FiltersFeature, ts: Seq<char>, r: RecordMeta) -> bool {
    in_time_range(f.meta, ts) && (!meta_has(f.meta) || meta_keeps(f.meta, r))
}

fn nonempty_exec(o: &Option<Vec<String>>) -> (b: bool)
    ensures
        b == nonempty(*o),
{
    match o {
        Some(v) => v.len() > 0,
        None => false,
    }
}

fn match_substring(list: &Option<Vec<String>>, val: &str) -> (b: bool)
    ensures
        b == hits_substring(*list, val@),
{
    match list {
        None => false,
        Some(items) => {
            if items.len() == 0 {
                return false;
            }
            let mut i: usize = 0;
            while i < items.len()
                invariant
                    i <= items.len(),
                    forall|k: int| 0 <= k < i ==> !contains(val@, #[trigger] items@[k]@),
                decreases items.len() - i,
            {
                if str_contains(val, items[i].as_str()) {
                    assert(contains(val@, items@[i as int]@));
                    return true;
                }
                i += 1;
            }
            false
        },
    }
}

fn match_exact(set: &Option<Vec<String>>, val: &str) -> (b: bool)
    ensures
        b == hits_exact(*set, val@),
{
    match set {
        None => false,
        Some(items) => {
            if items.len() == 0 {
                return false;
            }
            let mut i: usize = 0;
            while i < items.len()
                invariant
                    i <= items.len(),
                    forall|k: int| 0 <= k < i ==> #[trigger] items@[k]@ != val@,
                decreases items.len() - i,
            {
                if str_eq(items[i].as_str(), val) {
                    assert(items@[i as int]@ == val@);
                    return true;
                }
                i += 1;
            }
            false
        },
    }
}

impl MetaFilters {
    /// Some metadata list is configured and not empty.
    pub fn has_filters(&self) -> (b: bool)
        ensures
            b == meta_has(*self),
    {
        nonempty_exec(&self.trxids) || nonempty_exec(&self.client_ips) || nonempty_exec(
            &self.sess_ids,
        ) || nonempty_exec(&self.thrd_ids) || nonempty_exec(&self.usernames) || nonempty_exec(
            &self.statements,
        ) || nonempty_exec(&self.appnames) || nonempty_exec(&self.tags)
    }

    /// The record hits one of the lists: its transaction id is one of
    /// `trxids`, or one of its fields contains an entry of the matching list.
    pub fn should_keep(&self, meta: &RecordMeta) -> (b: bool)
        ensures
            b == meta_keeps(*self, *meta),
    {
        match_exact(&self.trxids, meta.trxid) || match_substring(&self.client_ips, meta.ip)
            || match_substring(&self.sess_ids, meta.sess) || match_substring(
            &self.thrd_ids,
            meta.thrd,
        ) || match_substring(&self.usernames, meta.user) || match_substring(
            &self.statements,
            meta.stmt,
        ) || match_substring(&self.appnames, meta.app) || match meta.tag {
            Some(t) => match_substring(&self.tags, t),
            None => false,
        }
    }
}

impl IndicatorFilters {
    /// Some indicator filter is configured.
    pub fn has_filters(&self) -> (b: bool)
        ensures
            b == indicators_has(*self),
    {
        (match &self.exec_ids {
            Some(v) => v.len() > 0,
            None => false,
        }) || self.min_runtime_ms.is_some() || self.min_row_count.is_some()
    }

    /// The integer indicator filters hit a record: its execution id is
    /// listed, or its row count reaches the minimum.  (The execution-time
    /// filter compares a floating-point time and is decided by the caller.)
    pub fn matches_counts(&self, exec_id: i64, row_count: i64) -> (b: bool)
        ensures
            b == ((self.exec_ids matches Some(v) && v@.contains(exec_id))
                || (self.min_row_count matches Some(m) && row_count >= m)),
    {
        let mut hit = false;
        if let Some(ids) = &self.exec_ids {
            let mut i: usize = 0;
            while i < ids.len()
                invariant
                    i <= ids.len(),
                    !hit ==> forall|k: int| 0 <= k < i ==> ids@[k] != exec_id,
                    hit ==> ids@.contains(exec_id),
                decreases ids.len() - i,
            {
                if ids[i] == exec_id {
                    hit = true;
                }
                i += 1;
            }
        }
        if hit {
            return true;
        }
        match self.min_row_count {
            Some(m) => row_count >= m as i64,
            None => false,
        }
    }
}

/// Result of the substring SQL filters.
pub open spec fn sql_matches(f: SqlFilters, sql: Seq<char>) -> bool {
    &&& sql_has(f)
    &&& match f.include_patterns {
        Some(v) => v@.len() == 0 || hits_substring(Some(v), sql),
        None => true,
    }
    &&& match f.exclude_patterns {
        Some(v) => !hits_substring(Some(v), sql),
        None => true,
    }
}

impl SqlFilters {
    /// Some pattern list is configured and not empty.
    pub fn has_filters(&self) -> (b: bool)
        ensures
            b == sql_has(*self),
    {
        nonempty_exec(&self.include_patterns) || nonempty_exec(&self.exclude_patterns)
    }

    /// The SQL passes: some filter is configured, the SQL contains one of
    /// the include patterns (when any are given) and none of the exclude
    /// patterns.  Without any configured filter nothing matches.
    pub fn matches(&self, sql: &str) -> (b: bool)
        ensures
            b == sql_matches(*self, sql@),
    {
        if !self.has_filters() {
            return false;
        }
        let include_match = match &self.include_patterns {
            Some(v) => v.len() == 0 || match_substring(&self.include_patterns, sql),
            None => true,
        };
        if !include_match {
            return false;
        }
        match &self.exclude_patterns {
            Some(_) => !match_substring(&self.exclude_patterns, sql),
            None => true,
        }
    }
}

impl FiltersFeature {
    /// Some filter is configured (and the feature is enabled).
    pub fn has_filters(&self) -> (b: bool)
        ensures
            b == (self.enable && (self.meta.start_ts is Some || self.meta.end_ts is Some || meta_has(
                self.meta,
            ) || indicators_has(self.indicators) || sql_has(self.sql) || sql_has(self.record_sql))),
    {
        if !self.enable {
            return false;
        }
        self.meta.start_ts.is_some() || self.meta.end_ts.is_some() || self.meta.has_filters()
            || self.indicators.has_filters() || self.sql.has_filters()
            || self.record_sql.has_filters()
    }

    /// Some filter needs the pre-scan of whole transactions.
    pub fn has_transaction_filters(&self) -> (b: bool)
        ensures
            b == (self.enable && (indicators_has(self.indicators) || sql_has(self.sql))),
    {
        if !self.enable {
            return false;
        }
        self.indicators.has_filters() || self.sql.has_filters()
    }

    /// Whether a record is kept: it must fall in the time range when one is
    /// configured, and then hit one metadata list when any is configured.
    pub fn should_keep(&self, ts: &str, meta: &RecordMeta) -> (b: bool)
        ensures
            b == spec_should_keep(*self, ts@, *meta),
    {
        if let Some(start) = &self.meta.start_ts {
            if str_lt(ts, start.as_str()) && !str_starts_with(ts, start.as_str()) {
                return false;
            }
        }
        if let Some(end) = &self.meta.end_ts {
            if str_lt(end.as_str(), ts) && !str_starts_with(ts, end.as_str()) {
                return false;
            }
        }
        if !self.meta.has_filters() {
            return true;
        }
        self.meta.should_keep(meta)
    }

    /// Adds the transaction ids found by the pre-scan to `trxids`, so that
    /// the main scan keeps every record of those transactions.  Nothing
    /// changes when the feature is disabled or no id was found.
    pub fn merge_found_trxids(&mut self, trxids: Vec<String>)
        ensures
            (!old(self).enable || trxids@.len() == 0) ==> *final(self) == *old(self),
            (old(self).enable && trxids@.len() > 0) ==> {
                &&& final(self).enable == old(self).enable
                &&& final(self).indicators == old(self).indicators
                &&& final(self).sql == old(self).sql
                &&& final(self).record_sql == old(self).record_sql
                &&& final(self).meta.trxids matches Some(v)
                &&& strings_view(v@) == match old(self).meta.trxids {
                    Some(o) => strings_view(o@),
                    None => Seq::<Seq<char>>::empty(),
                } + strings_view(trxids@)
                &&& final(self).meta.start_ts == old(self).meta.start_ts
                &&& final(self).meta.end_ts == old(self).meta.end_ts
                &&& final(self).meta.sess_ids == old(self).meta.sess_ids
                &&& final(self).meta.thrd_ids == old(self).meta.thrd_ids
                &&& final(self).meta.usernames == old(self).meta.usernames
                &&& final(self).meta.statements == old(self).meta.statements
                &&& final(self).meta.appnames == old(self).meta.appnames
                &&& final(self).meta.client_ips == old(self).meta.client_ips
                &&& final(self).meta.tags == old(self).meta.tags
            },
    {
        if (!self.enable && !self.has_filters()) || trxids.len() == 0 {
            return;
        }
        let mut set: Vec<String> = match self.meta.trxids.take() {
            Some(v) => v,
            None => Vec::new(),
        };
        let ghost start = strings_view(set@);
        let mut i: usize = 0;
        while i < trxids.len()
            invariant
                i <= trxids.len(),
                strings_view(set@) == start + strings_view(trxids@).take(i as int),
            decreases trxids.len() - i,
        {
            let t = trxids[i].clone();
            assert(t@ == trxids@[i as int]@);
            let ghost before = set@;
            set.push(t);
            assert(strings_view(set@) =~= strings_view(before).push(t@));
            assert(strings_view(trxids@).take(i + 1) =~= strings_view(trxids@).take(i as int).push(t@));
            i += 1;
            assert(strings_view(set@) =~= start + strings_view(trxids@).take(i as int));
        }
        assert(strings_view(trxids@).take(i as int) =~= strings_view(trxids@));
        self.meta.trxids = Some(set);
    }

    /// Every regular expression of the record-level filters compiles, or the
    /// error names the first list (in the order of `regex_list`) that holds
    /// a pattern that does not, and its first such pattern.
    pub fn validate_regexes(&self) -> (r: Result<(), crate::error::Error>)
        ensures
            r is Ok <==> filters_patterns_accepted(*self),
            r matches Err(e) ==> exists|n: int| 0 <= n < 9 && #[trigger] regex_list_error(*self, n, e),
    {
        let mut n: u8 = 0;
        while n < 9
            invariant
                n <= 9,
                forall|m: int| 0 <= m < n ==> all_accepted(opt_strings(#[trigger] regex_list(*self, m))),
            decreases 9 - n,
        {
            let r = validate_pattern_list_named(n, self.regex_list_at(n));
            match r {
                Ok(_) => {},
                Err(e) => {
                    assert(regex_list_error(*self, n as int, e));
                    return Err(e);
                },
            }
            n += 1;
        }
        assert(filters_patterns_accepted(*self)) by {
            assert(all_accepted(opt_strings(regex_list(*self, 0))));
            assert(all_accepted(opt_strings(regex_list(*self, 1))));
            assert(all_accepted(opt_strings(regex_list(*self, 2))));
            assert(all_accepted(opt_strings(regex_list(*self, 3))));
            assert(all_accepted(opt_strings(regex_list(*self, 4))));
            assert(all_accepted(opt_strings(regex_list(*self, 5))));
            assert(all_accepted(opt_strings(regex_list(*self, 6))));
            assert(all_accepted(opt_strings(regex_list(*self, 7))));
            assert(all_accepted(opt_strings(regex_list(*self, 8))));
        }
        Ok(())
    }

    fn regex_list_at(&self, n: u8) -> (r: Option<&Vec<String>>)
        ensures
            match r {
                Some(v) => regex_list(*self, n as int) == Some(*v),
                None => regex_list(*self, n as int) is None,
            },
    {
        if n == 0 {
            self.meta.usernames.as_ref()
        } else if n == 1 {
            self.meta.client_ips.as_ref()
        } else if n == 2 {
            self.meta.sess_ids.as_ref()
        } else if n == 3 {
            self.meta.thrd_ids.as_ref()
        } else if n == 4 {
            self.meta.statements.as_ref()
        } else if n == 5 {
            self.meta.appnames.as_ref()
        } else if n == 6 {
            self.meta.tags.as_ref()
        } else if n == 7 {
            self.record_sql.include_patterns.as_ref()
        } else {
            self.record_sql.exclude_patterns.as_ref()
        }
    }
}

/// The `n`-th list of patterns that `validate_regexes` checks.
pub open spec fn regex_list(f: FiltersFeature, n: int) -> Option<Vec<String>> {
    if n == 0 {
        f.meta.usernames
    } else if n == 1 {
        f.meta.client_ips
    } else if n == 2 {
        f.meta.sess_ids
    } else if n == 3 {
        f.meta.thrd_ids
    } else if n == 4 {
        f.meta.statements
    } else if n == 5 {
        f.meta.appnames
    } else if n == 6 {
        f.meta.tags
    } else if n == 7 {
        f.record_sql.include_patterns
    } else {
        f.record_sql.exclude_patterns
    }
}

/// The configuration key of the `n`-th list.
pub open spec fn regex_list_name(n: int) -> Seq<char> {
    if n == 0 {
        "features.filters.usernames"@
    } else if n == 1 {
        "features.filters.client_ips"@
    } else if n == 2 {
        "features.filters.sess_ids"@
    } else if n == 3 {
        "features.filters.thrd_ids"@
    } else if n == 4 {
        "features.filters.statements"@
    } else if n == 5 {
        "features.filters.appnames"@
    } else if n == 6 {
        "features.filters.tags"@
    } else if n == 7 {
        "features.filters.record_sql.include_patterns"@
    } else {
        "features.filters.record_sql.exclude_patterns"@
    }
}

/// `e` reports the first rejected pattern of the `n`-th list, and every
/// list before it compiles.
pub open spec fn regex_list_error(f: FiltersFeature, n: int, e: crate::error::Error) -> bool {
    &&& forall|m: int| 0 <= m < n ==> all_accepted(opt_strings(#[trigger] regex_list(f, m)))
    &&& regex_list(f, n) matches Some(v)
    &&& first_rejected(strings_view(v@), 0) matches Some(k)
    &&& e matches crate::error::Error::Config(ConfigError::InvalidValue { field: fl, value: vl, reason: _ })
    &&& fl@ == regex_list_name(n)
    &&& vl@ == v@[k]@
}

/// Every pattern of the lists that the compiled filters use compiles.
pub open spec fn filters_patterns_accepted(f: FiltersFeature) -> bool {
    &&& all_accepted(opt_strings(f.meta.usernames))
    &&& all_accepted(opt_strings(f.meta.client_ips))
    &&& all_accepted(opt_strings(f.meta.sess_ids))
    &&& all_accepted(opt_strings(f.meta.thrd_ids))
    &&& all_accepted(opt_strings(f.meta.statements))
    &&& all_accepted(opt_strings(f.meta.appnames))
    &&& all_accepted(opt_strings(f.meta.tags))
    &&& all_accepted(opt_strings(f.record_sql.include_patterns))
    &&& all_accepted(opt_strings(f.record_sql.exclude_patterns))
}

/// The configuration key of the `n`-th validated list.
fn pattern_field_name(n: u8) -> (s: String)
    ensures
        s@ == regex_list_name(n as int),
{
    if n == 0 {
        owned("features.filters.usernames")
    } else if n == 1 {
        owned("features.filters.client_ips")
    } else if n == 2 {
        owned("features.filters.sess_ids")
    } else if n == 3 {
        owned("features.filters.thrd_ids")
    } else if n == 4 {
        owned("features.filters.statements")
    } else if n == 5 {
        owned("features.filters.appnames")
    } else if n == 6 {
        owned("features.filters.tags")
    } else if n == 7 {
        owned("features.filters.record_sql.include_patterns")
    } else {
        owned("features.filters.record_sql.exclude_patterns")
    }
}

fn validate_pattern_list_named(n: u8, patterns: Option<&Vec<String>>) -> (r: Result<(), crate::error::Error>)
    ensures
        r is Ok <==> all_accepted(
            match patterns {
                Some(v) => Some(strings_view(v@)),
                None => None,
            },
        ),
        r matches Err(e) ==> patterns matches Some(v)
            && first_rejected(strings_view(v@), 0) matches Some(k)
            && e matches crate::error::Error::Config(ConfigError::InvalidValue { field: fl, value: vl, reason: _ })
            && fl@ == regex_list_name(n as int) && vl@ == v@[k]@,
{
    let field = pattern_field_name(n);
    match patterns {
        Some(v) => {
            let sl = v.as_slice();
            assert(sl@ == v@);
            let ghost ps = strings_view(v@);
            let r = validate_pattern_list(field.as_str(), Some(sl));
            proof {
                lemma_first_rejected(ps, 0);
                if let Some(k) = first_rejected(ps, 0) {
                    assert(!regex_accepts(ps[k]));
                }
            }
            r
        },
        None => validate_pattern_list(field.as_str(), None),
    }
}

// ───────────────────────────── compiled filters ─────────────────────────────

/// The record-level metadata filters with their regular expressions compiled.
#[derive(Debug)]
pub struct CompiledMetaFilters {
    pub usernames: Option<Vec<Pattern>>,
    pub client_ips: Option<Vec<Pattern>>,
    pub sess_ids: Option<Vec<Pattern>>,
    pub thrd_ids: Option<Vec<Pattern>>,
    pub statements: Option<Vec<Pattern>>,
    pub appnames: Option<Vec<Pattern>>,
    pub tags: Option<Vec<Pattern>>,
    pub trxids: Option<Vec<String>>,
}

/// The compiled form of `o`: `None` for a missing or empty list.
pub open spec fn compiled_from(c: Option<Seq<Seq<char>>>, o: Option<Vec<String>>) -> bool {
    match o {
        Some(v) if v@.len() > 0 => c == Some(strings_view(v@)),
        _ => c is None,
    }
}

/// One pattern of the list matches `val`; an absent or empty list passes.
pub open spec fn any_regex(o: Option<Seq<Seq<char>>>, val: Seq<char>) -> bool {
    match o {
        None => true,
        Some(ps) => ps.len() == 0 || exists|i: int| 0 <= i < ps.len() && regex_matches(#[trigger] ps[i], val),
    }
}

pub open spec fn compiled_keeps(c: CompiledMetaFilters, r: RecordMeta) -> bool {
    &&& any_regex(opt_patterns(c.usernames), r.user@)
    &&& any_regex(opt_patterns(c.client_ips), r.ip@)
    &&& any_regex(opt_patterns(c.sess_ids), r.sess@)
    &&& any_regex(opt_patterns(c.thrd_ids), r.thrd@)
    &&& any_regex(opt_patterns(c.statements), r.stmt@)
    &&& any_regex(opt_patterns(c.appnames), r.app@)
    &&& (c.trxids matches Some(v) && v@.len() > 0 ==> hits_exact(c.trxids, r.trxid@))
    &&& match opt_patterns(c.tags) {
        None => true,
        Some(ps) => match r.tag {
            Some(t) => exists|i: int| 0 <= i < ps.len() && regex_matches(#[trigger] ps[i], t@),
            None => ps.len() == 0,
        },
    }
}

pub open spec fn meta_patterns_accepted(m: MetaFilters) -> bool {
    &&& all_accepted(opt_strings(m.usernames))
    &&& all_accepted(opt_strings(m.client_ips))
    &&& all_accepted(opt_strings(m.sess_ids))
    &&& all_accepted(opt_strings(m.thrd_ids))
    &&& all_accepted(opt_strings(m.statements))
    &&& all_accepted(opt_strings(m.appnames))
    &&& all_accepted(opt_strings(m.tags))
}

fn compile_accepted(o: &Option<Vec<String>>) -> (r: Option<Vec<Pattern>>)
    requires
        all_accepted(opt_strings(*o)),
    ensures
        compiled_from(opt_patterns(r), *o),
{
    match o {
        Some(v) => {
            let sl = v.as_slice();
            assert(sl@ == v@);
            let ghost ps = strings_view(v@);
            proof {
                lemma_first_rejected(ps, 0);
                assert(opt_strings(*o) == Some(ps));
                assert(first_rejected(ps, 0) is None);
            }
            let res = compile_patterns(Some(sl));
            match res {
                Ok(c) => c,
                Err(_) => None,
            }
        },
        None => None,
    }
}

pub fn match_any_regex(patterns: &Option<Vec<Pattern>>, val: &str) -> (b: bool)
    ensures
        b == any_regex(opt_patterns(*patterns), val@),
{
    match patterns {
        None => true,
        Some(ps) => {
            if ps.len() == 0 {
                return true;
            }
            let ghost v = patterns_view(ps@);
            let mut i: usize = 0;
            while i < ps.len()
                invariant
                    i <= ps.len(),
                    v == patterns_view(ps@),
                    forall|k: int| 0 <= k < i ==> !regex_matches(#[trigger] v[k], val@),
                decreases ps.len() - i,
            {
                assert(v[i as int] == ps@[i as int]@);
                if is_match(&ps[i], val) {
                    assert(regex_matches(v[i as int], val@));
                    return true;
                }
                i += 1;
            }
            false
        },
    }
}

impl CompiledMetaFilters {
    /// Compiles the metadata filters.  Every pattern must compile
    /// (`Config::validate` checks this first).
    pub fn from_meta(meta: &MetaFilters) -> (c: Self)
        requires
            meta_patterns_accepted(*meta),
        ensures
            compiled_from(opt_patterns(c.usernames), meta.usernames),
            compiled_from(opt_patterns(c.client_ips), meta.client_ips),
            compiled_from(opt_patterns(c.sess_ids), meta.sess_ids),
            compiled_from(opt_patterns(c.thrd_ids), meta.thrd_ids),
            compiled_from(opt_patterns(c.statements), meta.statements),
            compiled_from(opt_patterns(c.appnames), meta.appnames),
            compiled_from(opt_patterns(c.tags), meta.tags),
            opt_strings(c.trxids) == opt_strings(meta.trxids),
    {
        CompiledMetaFilters {
            usernames: compile_accepted(&meta.usernames),
            client_ips: compile_accepted(&meta.client_ips),
            sess_ids: compile_accepted(&meta.sess_ids),
            thrd_ids: compile_accepted(&meta.thrd_ids),
            statements: compile_accepted(&meta.statements),
            appnames: compile_accepted(&meta.appnames),
            tags: compile_accepted(&meta.tags),
            trxids: clone_opt_strings(&meta.trxids),
        }
    }

    /// Some compiled condition is present.
    pub fn has_filters(&self) -> (b: bool)
        ensures
            b == (self.usernames is Some || self.client_ips is Some || self.sess_ids is Some
                || self.thrd_ids is Some || self.statements is Some || self.appnames is Some
                || self.tags is Some || nonempty(self.trxids)),
    {
        self.usernames.is_some() || self.client_ips.is_some() || self.sess_ids.is_some()
            || self.thrd_ids.is_some() || self.statements.is_some() || self.appnames.is_some()
            || self.tags.is_some() || nonempty_exec(&self.trxids)
    }

    /// Every configured field matches the record (one pattern per field is
    /// enough; transaction ids match exactly; a record without tag fails a
    /// configured, non-empty tag list).
    pub fn should_keep(&self, meta: &RecordMeta) -> (b: bool)
        ensures
            b == compiled_keeps(*self, *meta),
    {
        if !match_any_regex(&self.usernames, meta.user) {
            return false;
        }
        if !match_any_regex(&self.client_ips, meta.ip) {
            return false;
        }
        if !match_any_regex(&self.sess_ids, meta.sess) {
            return false;
        }
        if !match_any_regex(&self.thrd_ids, meta.thrd) {
            return false;
        }
        if !match_any_regex(&self.statements, meta.stmt) {
            return false;
        }
        if !match_any_regex(&self.appnames, meta.app) {
            return false;
        }
        if let Some(trxids) = &self.trxids {
            if trxids.len() > 0 && !match_exact(&self.trxids, meta.trxid) {
                return false;
            }
        }
        if let Some(tag_patterns) = &self.tags {
            match meta.tag {
                Some(t) => {
                    if tag_patterns.len() == 0 {
                        proof {
                            let ps = patterns_view(tag_patterns@);
                            assert(ps.len() == 0);
                        }
                        return false;
                    }
                    if !match_any_regex(&self.tags, t) {
                        return false;
                    }
                },
                None => {
                    if tag_patterns.len() > 0 {
                        return false;
                    }
                },
            }
        }
        true
    }
}

/// The record-level SQL filters with their regular expressions compiled.
#[derive(Debug)]
pub struct CompiledSqlFilters {
    pub include_patterns: Option<Vec<Pattern>>,
    pub exclude_patterns: Option<Vec<Pattern>>,
}

pub open spec fn compiled_sql_matches(c: CompiledSqlFilters, sql: Seq<char>) -> bool {
    &&& any_regex(opt_patterns(c.include_patterns), sql)
    &&& match opt_patterns(c.exclude_patterns) {
        Some(ps) => !exists|i: int| 0 <= i < ps.len() && regex_matches(#[trigger] ps[i], sql),
        None => true,
    }
}

impl CompiledSqlFilters {
    /// Compiles the SQL filters.  Every pattern must compile.
    pub fn from_sql_filters(sf: &SqlFilters) -> (c: Self)
        requires
            all_accepted(opt_strings(sf.include_patterns)),
            all_accepted(opt_strings(sf.exclude_patterns)),
        ensures
            compiled_from(opt_patterns(c.include_patterns), sf.include_patterns),
            compiled_from(opt_patterns(c.exclude_patterns), sf.exclude_patterns),
    {
        CompiledSqlFilters {
            include_patterns: compile_accepted(&sf.include_patterns),
            exclude_patterns: compile_accepted(&sf.exclude_patterns),
        }
    }

    /// Some compiled condition is present.
    pub fn has_filters(&self) -> (b: bool)
        ensures
            b == (self.include_patterns is Some || self.exclude_patterns is Some),
    {
        self.include_patterns.is_some() || self.exclude_patterns.is_some()
    }

    /// The SQL matches one include pattern (when any are configured) and no
    /// exclude pattern.
    pub fn matches(&self, sql: &str) -> (b: bool)
        ensures
            b == compiled_sql_matches(*self, sql@),
    {
        if !match_any_regex(&self.include_patterns, sql) {
            return false;
        }
        match &self.exclude_patterns {
            Some(excl) => {
                if excl.len() == 0 {
                    return true;
                }
                !match_any_regex(&self.exclude_patterns, sql)
            },
            None => true,
        }
    }
}

/// Without a time range and without metadata lists, the configured
/// filters keep every record.
pub proof fn lemma_unfiltered_keeps_all(f: FiltersFeature, ts: Seq<char>, r: RecordMeta)
    requires
        f.meta.start_ts is None,
        f.meta.end_ts is None,
        !meta_has(f.meta),
    ensures
        spec_should_keep(f, ts, r),
{
}

/// Compiled filters with no field configured keep every record.
pub proof fn lemma_compiled_unconfigured_keeps_all(c: CompiledMetaFilters, r: RecordMeta)
    requires
        c.usernames is None,
        c.client_ips is None,
        c.sess_ids is None,
        c.thrd_ids is None,
        c.statements is None,
        c.appnames is None,
        c.tags is None,
        c.trxids is None,
    ensures
        compiled_keeps(c, r),
{
}

/// `val` contains one of the strings of the configured list `o`.
pub open spec fn listed_in(o: Option<Vec<String>>, val: Seq<char>) -> bool {
    o matches Some(v) && exists|i: int| 0 <= i < v@.len() && #[trigger] contains(val, v@[i]@)
}

/// Law: the metadata filters keep a record that any configured list
/// admits, whichever list it is: within the time range, a record is kept
/// when its transaction id is one of `trxids`, or its client address,
/// session, thread, user, statement, application name or tag contains an
/// entry of the list of that field.
pub proof fn lemma_any_listed_field_keeps(f: FiltersFeature, ts: Seq<char>, r: RecordMeta)
    requires
        in_time_range(f.meta, ts),
        (f.meta.trxids matches Some(v) && exists|i: int| 0 <= i < v@.len() && #[trigger] v@[i]@ == r.trxid@)
            || listed_in(f.meta.client_ips, r.ip@)
            || listed_in(f.meta.sess_ids, r.sess@)
            || listed_in(f.meta.thrd_ids, r.thrd@)
            || listed_in(f.meta.usernames, r.user@)
            || listed_in(f.meta.statements, r.stmt@)
            || listed_in(f.meta.appnames, r.app@)
            || (r.tag matches Some(t) && listed_in(f.meta.tags, t@)),
    ensures
        spec_should_keep(f, ts, r),
        meta_keeps(f.meta, r),
{
}

} // verus!
