//! The `[features]` section of the configuration: which fields are
//! exported, how placeholders are recognised, and the switches of the
//! optional analyses.

use vstd::prelude::*;
use crate::filters::FiltersFeature;
use crate::text::{is_digit, owned, str_eq};

verus! {

/// Number of exportable fields.
pub const FIELD_COUNT: usize = 15;

/// Name of the `i`-th exportable field, in CSV / SQLite column order.
pub open spec fn field_name(i: int) -> Seq<char> {
    if i == 0 {
        "ts"@
    } else if i == 1 {
        "ep"@
    } else if i == 2 {
        "sess_id"@
    } else if i == 3 {
        "thrd_id"@
    } else if i == 4 {
        "username"@
    } else if i == 5 {
        "trx_id"@
    } else if i == 6 {
        "statement"@
    } else if i == 7 {
        "appname"@
    } else if i == 8 {
        "client_ip"@
    } else if i == 9 {
        "tag"@
    } else if i == 10 {
        "sql"@
    } else if i == 11 {
        "exec_time_ms"@
    } else if i == 12 {
        "row_count"@
    } else if i == 13 {
        "exec_id"@
    } else {
        "normalized_sql"@
    }
}

/// The first field index at `i` or after whose name is `n`.
pub open spec fn field_pos_from(n: Seq<char>, i: int) -> Option<int>
    decreases 15 - i,
{
    if i < 0 || i >= 15 {
        None
    } else if field_name(i) == n {
        Some(i)
    } else {
        field_pos_from(n, i + 1)
    }
}

/// Index of the field named `n`, if it is one.
pub open spec fn field_pos(n: Seq<char>) -> Option<int> {
    field_pos_from(n, 0)
}

pub proof fn lemma_field_pos_from(n: Seq<char>, i: int)
    requires
        0 <= i <= 15,
    ensures
        field_pos_from(n, i) matches Some(k) ==> i <= k < 15 && field_name(k) == n,
        field_pos_from(n, i) is None ==> forall|k: int| i <= k < 15 ==> field_name(k) != n,
    decreases 15 - i,
{
    if i < 15 {
        lemma_field_pos_from(n, i + 1);
    }
}

/// The name of the `i`-th exportable field.
pub fn field_name_at(i: usize) -> (r: &'static str)
    requires
        i < FIELD_COUNT,
    ensures
        r@ == field_name(i as int),
{
    if i == 0 {
        "ts"
    } else if i == 1 {
        "ep"
    } else if i == 2 {
        "sess_id"
    } else if i == 3 {
        "thrd_id"
    } else if i == 4 {
        "username"
    } else if i == 5 {
        "trx_id"
    } else if i == 6 {
        "statement"
    } else if i == 7 {
        "appname"
    } else if i == 8 {
        "client_ip"
    } else if i == 9 {
        "tag"
    } else if i == 10 {
        "sql"
    } else if i == 11 {
        "exec_time_ms"
    } else if i == 12 {
        "row_count"
    } else if i == 13 {
        "exec_id"
    } else {
        "normalized_sql"
    }
}

/// Index of the exportable field called `name`.
pub fn field_position(name: &str) -> (r: Option<usize>)
    ensures
        match r {
            Some(i) => field_pos(name@) == Some(i as int),
            None => field_pos(name@) is None,
        },
{
    let mut i: usize = 0;
    while i < FIELD_COUNT
        invariant
            i <= FIELD_COUNT,
            field_pos(name@) == field_pos_from(name@, i as int),
        decreases FIELD_COUNT - i,
    {
        if str_eq(field_name_at(i), name) {
            return Some(i);
        }
        i += 1;
    }
    None
}

/// Bit `i` of `m` is set.
pub open spec fn bit_set(m: u16, i: u16) -> bool {
    (m >> i) & 1u16 == 1u16
}

/// Which fields are exported: bit `i` stands for the `i`-th field.
#[derive(Debug, Clone, Copy, PartialEq, Eq, Structural)]
pub struct FieldMask(pub u16);

/// The mask of all exportable fields.
pub const ALL_FIELDS: u16 = 0x7FFF;

impl FieldMask {
    /// The `i`-th field is exported.
    pub open spec fn has(self, i: int) -> bool {
        0 <= i < 15 && bit_set(self.0, i as u16)
    }

    /// Every field is exported.
    pub fn all() -> (m: Self)
        ensures
            m.0 == ALL_FIELDS,
            forall|i: int| 0 <= i < 15 ==> #[trigger] m.has(i),
    {
        let m = FieldMask(ALL_FIELDS);
        assert forall|i: u16| i < 15 implies #[trigger] bit_set(ALL_FIELDS, i) by {
            assert((0x7FFFu16 >> i) & 1u16 == 1u16) by (bit_vector)
                requires
                    i < 15,
            ;
        }
        assert forall|i: int| 0 <= i < 15 implies #[trigger] m.has(i) by {
            assert(bit_set(ALL_FIELDS, i as u16));
        }
        m
    }

    /// The mask of the named fields; the first unknown name is an error,
    /// `unknown field: '<name>'`.
    pub fn from_names(names: &[String]) -> (r: Result<Self, String>)
        ensures
            match r {
                Ok(m) => {
                    &&& forall|k: int| 0 <= k < names@.len() ==> (#[trigger] field_pos(names@[k]@)) is Some
                    &&& m.0 < 0x8000
                    &&& forall|i: int| 0 <= i < 15 ==> (#[trigger] m.has(i) <==> exists|k: int|
                        0 <= k < names@.len() && #[trigger] field_pos(names@[k]@) == Some(i))
                },
                Err(msg) => exists|k: int| {
                    &&& 0 <= k < names@.len()
                    &&& (#[trigger] field_pos(names@[k]@)) is None
                    &&& forall|j: int| 0 <= j < k ==> (#[trigger] field_pos(names@[j]@)) is Some
                    &&& msg@ == "unknown field: '"@ + names@[k]@ + "'"@
                },
            },
    {
        let mut mask: u16 = 0;
        let mut j: usize = 0;
        assert forall|i: u16| i < 16 implies !#[trigger] bit_set(0u16, i) by {
            assert((0u16 >> i) & 1u16 != 1u16) by (bit_vector);
        }
        while j < names.len()
            invariant
                j <= names.len(),
                mask < 0x8000,
                forall|k: int| 0 <= k < j ==> (#[trigger] field_pos(names@[k]@)) is Some,
                forall|i: u16| i < 15 ==> (#[trigger] bit_set(mask, i) <==> exists|k: int|
                    0 <= k < j && #[trigger] field_pos(names@[k]@) == Some(i as int)),
            decreases names.len() - j,
        {
            match field_position(names[j].as_str()) {
                Some(idx) => {
                    proof {
                        lemma_field_pos_from(names@[j as int]@, 0);
                    }
                    let ghost old_mask = mask;
                    let idx16: u16 = idx as u16;
                    mask = mask | (1u16 << idx16);
                    assert forall|i: u16| i < 15 implies (#[trigger] bit_set(mask, i) <==> (bit_set(old_mask, i) || i == idx16)) by {
                        assert(((old_mask | (1u16 << idx16)) >> i) & 1u16 == 1u16 <==> ((old_mask >> i) & 1u16 == 1u16 || i == idx16)) by (bit_vector)
                            requires
                                idx16 < 15,
                                i < 15,
                        ;
                    }
                    assert(mask < 0x8000) by (bit_vector)
                        requires
                            mask == old_mask | (1u16 << idx16),
                            old_mask < 0x8000,
                            idx16 < 15,
                    ;
                    assert forall|i: u16| i < 15 implies (#[trigger] bit_set(mask, i) <==> exists|k: int|
                        0 <= k < j + 1 && #[trigger] field_pos(names@[k]@) == Some(i as int)) by {
                        if i == idx16 {
                            assert(field_pos(names@[j as int]@) == Some(i as int));
                        }
                        if exists|k: int| 0 <= k < j + 1 && #[trigger] field_pos(names@[k]@) == Some(i as int) {
                            let k = choose|k: int| 0 <= k < j + 1 && #[trigger] field_pos(names@[k]@) == Some(i as int);
                            if k < j {
                                assert(bit_set(old_mask, i));
                            }
                        }
                    }
                },
                None => {
                    let mut msg = owned("unknown field: '");
                    msg.append(names[j].as_str());
                    msg.append("'");
                    return Err(msg);
                },
            }
            j += 1;
        }
        let m = FieldMask(mask);
        assert forall|i: int| 0 <= i < 15 implies (#[trigger] m.has(i) <==> exists|k: int|
            0 <= k < names@.len() && #[trigger] field_pos(names@[k]@) == Some(i)) by {
            assert(bit_set(mask, i as u16) <==> exists|k: int|
                0 <= k < j && #[trigger] field_pos(names@[k]@) == Some((i as u16) as int));
        }
        Ok(m)
    }

    /// The `idx`-th field is exported.
    pub fn is_active(self, idx: usize) -> (b: bool)
        ensures
            b == self.has(idx as int),
    {
        if idx < 15 {
            let i: u16 = idx as u16;
            (self.0 >> i) & 1u16 == 1u16
        } else {
            false
        }
    }

    /// The `normalized_sql` field (the last one) is exported.
    pub fn includes_normalized_sql(self) -> (b: bool)
        ensures
            b == self.has(14),
    {
        self.is_active(14)
    }
}

impl Default for FieldMask {
    fn default() -> (m: Self)
        ensures
            m.0 == ALL_FIELDS,
    {
        FieldMask::all()
    }
}

// ───────────────────────────── replace_parameters ─────────────────────────────

/// The `[features.replace_parameters]` section.
#[derive(Debug, Clone)]
pub struct ReplaceParametersConfig {
    /// Write the `normalized_sql` column.
    pub enable: bool,
    /// The placeholders that the SQL uses, such as `["?"]` or `[":1"]`;
    /// empty for automatic detection.
    pub placeholders: Vec<String>,
}

impl Default for ReplaceParametersConfig {
    fn default() -> (c: Self)
        ensures
            c.enable,
            c.placeholders@.len() == 0,
    {
        ReplaceParametersConfig { enable: true, placeholders: Vec::new() }
    }
}

/// `p` is a `:N` placeholder: a colon followed by an ASCII digit.
pub open spec fn is_colon_placeholder(p: Seq<char>) -> bool {
    p.len() >= 2 && p[0] == ':' && is_digit(p[1])
}

/// The placeholder style that `placeholders` forces: `Some(false)` for `?`
/// alone, `Some(true)` for `:N` alone, and `None` (detect) otherwise.
pub open spec fn spec_placeholder_override(ps: Seq<Seq<char>>) -> Option<bool> {
    let q = exists|i: int| 0 <= i < ps.len() && #[trigger] ps[i] == "?"@;
    let c = exists|i: int| 0 <= i < ps.len() && is_colon_placeholder(#[trigger] ps[i]);
    if q && !c {
        Some(false)
    } else if c && !q {
        Some(true)
    } else {
        None
    }
}

fn is_colon_placeholder_exec(p: &str) -> (b: bool)
    ensures
        b == is_colon_placeholder(p@),
{
    let cs = crate::text::chars_of(p);
    cs.len() >= 2 && cs[0] == ':' && crate::text::digit_c(cs[1])
}

impl ReplaceParametersConfig {
    /// The placeholder style for `compute_normalized`: `None` detects it,
    /// `Some(false)` forces `?`, `Some(true)` forces `:N`.
    pub fn placeholder_override(&self) -> (r: Option<bool>)
        ensures
            r == spec_placeholder_override(crate::filters::strings_view(self.placeholders@)),
    {
        let ghost ps = crate::filters::strings_view(self.placeholders@);
        let mut has_question = false;
        let mut has_colon = false;
        let mut i: usize = 0;
        while i < self.placeholders.len()
            invariant
                i <= self.placeholders.len(),
                ps == crate::filters::strings_view(self.placeholders@),
                has_question <==> exists|k: int| 0 <= k < i && #[trigger] ps[k] == "?"@,
                has_colon <==> exists|k: int| 0 <= k < i && is_colon_placeholder(#[trigger] ps[k]),
            decreases self.placeholders.len() - i,
        {
            let p = self.placeholders[i].as_str();
            assert(ps[i as int] == p@);
            if str_eq(p, "?") {
                has_question = true;
            }
            if is_colon_placeholder_exec(p) {
                has_colon = true;
            }
            i += 1;
        }
        if has_question && !has_colon {
            Some(false)
        } else if has_colon && !has_question {
            Some(true)
        } else {
            None
        }
    }
}

// ───────────────────────────── analyses ─────────────────────────────

/// The `[features.template_analysis]` section.
#[derive(Debug, Clone)]
pub struct TemplateAnalysisConfig {
    /// Normalise SQL into templates and aggregate them.
    pub enabled: bool,
}

impl Default for TemplateAnalysisConfig {
    fn default() -> (c: Self)
        ensures
            !c.enabled,
    {
        TemplateAnalysisConfig { enabled: false }
    }
}

/// The `[features.charts]` section.
#[derive(Debug, Clone)]
pub struct ChartsConfig {
    /// Output directory of the charts.
    pub output_dir: String,
    /// How many templates the frequency chart shows.
    pub top_n: usize,
    pub frequency_bar: bool,
    pub latency_hist: bool,
    pub trend_line: bool,
    pub user_pie: bool,
}

impl Default for ChartsConfig {
    fn default() -> (c: Self)
        ensures
            c.output_dir@ == "charts/"@,
            c.top_n == 10,
            c.frequency_bar && c.latency_hist && c.trend_line && c.user_pie,
    {
        ChartsConfig {
            output_dir: owned("charts/"),
            top_n: 10,
            frequency_bar: true,
            latency_hist: true,
            trend_line: true,
            user_pie: true,
        }
    }
}

// ───────────────────────────── the section ─────────────────────────────

/// The `[features]` section.
#[derive(Debug, Clone)]
pub struct FeaturesConfig {
    pub filters: Option<FiltersFeature>,
    pub replace_parameters: Option<ReplaceParametersConfig>,
    /// The exported fields, in the order of the output; all when absent.
    pub fields: Option<Vec<String>>,
    pub template_analysis: Option<TemplateAnalysisConfig>,
    pub charts: Option<ChartsConfig>,
}

impl Default for FeaturesConfig {
    fn default() -> (c: Self)
        ensures
            c.filters is None,
            c.replace_parameters is None,
            c.fields is None,
            c.template_analysis is None,
            c.charts is None,
    {
        FeaturesConfig {
            filters: None,
            replace_parameters: None,
            fields: None,
            template_analysis: None,
            charts: None,
        }
    }
}

/// The field indices of `names` in order, unknown names left out.
pub open spec fn known_positions(names: Seq<Seq<char>>) -> Seq<usize>
    decreases names.len(),
{
    if names.len() == 0 {
        Seq::empty()
    } else {
        let rest = known_positions(names.drop_last());
        match field_pos(names.last()) {
            Some(i) => rest.push(i as usize),
            None => rest,
        }
    }
}

/// `0, 1, ..., 14`.
pub open spec fn all_positions() -> Seq<usize> {
    Seq::new(15, |i: int| i as usize)
}

impl FeaturesConfig {
    /// The mask of the exported fields: every field when `fields` is absent,
    /// empty or names an unknown field.
    pub fn field_mask(&self) -> (m: FieldMask)
        ensures
            match self.fields {
                Some(v) if v@.len() > 0 && (forall|k: int| 0 <= k < v@.len() ==> (#[trigger] field_pos(v@[k]@)) is Some) =>
                    forall|i: int| 0 <= i < 15 ==> (#[trigger] m.has(i) <==> exists|k: int|
                        0 <= k < v@.len() && #[trigger] field_pos(v@[k]@) == Some(i)),
                _ => m.0 == ALL_FIELDS,
            },
    {
        match &self.fields {
            None => FieldMask::all(),
            Some(names) => {
                if names.len() == 0 {
                    FieldMask::all()
                } else {
                    match FieldMask::from_names(names.as_slice()) {
                        Ok(m) => m,
                        Err(_) => FieldMask::all(),
                    }
                }
            },
        }
    }

    /// The indices of the exported fields in output order: all of them in
    /// column order when `fields` is absent or empty, else those of the
    /// listed names, unknown names left out.
    pub fn ordered_field_indices(&self) -> (r: Vec<usize>)
        ensures
            match self.fields {
                Some(v) if v@.len() > 0 => r@ == known_positions(crate::filters::strings_view(v@)),
                _ => r@ == all_positions(),
            },
    {
        match &self.fields {
            Some(names) if names.len() > 0 => {
                let ghost ns = crate::filters::strings_view(names@);
                let mut out: Vec<usize> = Vec::new();
                let mut j: usize = 0;
                while j < names.len()
                    invariant
                        j <= names.len(),
                        ns == crate::filters::strings_view(names@),
                        out@ == known_positions(ns.take(j as int)),
                    decreases names.len() - j,
                {
                    assert(ns.take(j + 1).drop_last() =~= ns.take(j as int));
                    assert(ns.take(j + 1).last() == names@[j as int]@);
                    match field_position(names[j].as_str()) {
                        Some(i) => out.push(i),
                        None => {},
                    }
                    j += 1;
                }
                assert(ns.take(j as int) =~= ns);
                out
            },
            _ => {
                let mut out: Vec<usize> = Vec::new();
                let mut i: usize = 0;
                while i < FIELD_COUNT
                    invariant
                        i <= FIELD_COUNT,
                        out@ =~= all_positions().take(i as int),
                    decreases FIELD_COUNT - i,
                {
                    out.push(i);
                    i += 1;
                }
                out
            },
        }
    }
}

} // verus!
