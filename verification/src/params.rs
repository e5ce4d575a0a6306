//! Parameter substitution for prepared statements.
//!
//! The log records the values bound to a prepared statement in a separate
//! `PARAMS(SEQNO, TYPE, DATA)={...}` record that precedes its execution.
//! These records are parsed and buffered per `(trxid, statement)`; the next
//! execution record of that pair gets its placeholders (`?` in order, or
//! `:N` by ordinal) replaced by the buffered values.

use vstd::prelude::*;
use crate::fingerprint::{lemma_skip_quoted_ge, skip_quoted};
use crate::text::{
    chars_of, digit_c, is_digit, lead_uws, lead_uws_at, lemma_lead_uws_bound, push_char,
    string_from_chars, trail_uws, trail_uws_in, trim, trim_start,
};

verus! {

/// A value bound to a placeholder, as written in a `PARAMS` record.
#[derive(Debug, Clone)]
pub enum ParamValue {
    /// A single-quoted string, quotes included, e.g. `'3USJ29'`.
    Quoted(String),
    /// A bare literal such as a number, e.g. `2370075`.
    Bare(String),
    /// `NULL`, a BLOB or any empty value.
    Null,
}

/// The mathematical value of a [`ParamValue`].
pub ghost enum ParamSpec {
    Quoted(Seq<char>),
    Bare(Seq<char>),
    Null,
}

impl View for ParamValue {
    type V = ParamSpec;

    open spec fn view(&self) -> ParamSpec {
        match self {
            ParamValue::Quoted(s) => ParamSpec::Quoted(s@),
            ParamValue::Bare(s) => ParamSpec::Bare(s@),
            ParamValue::Null => ParamSpec::Null,
        }
    }
}

/// The SQL text that replaces a placeholder.
pub open spec fn param_sql(p: ParamSpec) -> Seq<char> {
    match p {
        ParamSpec::Quoted(s) => s,
        ParamSpec::Bare(s) => s,
        ParamSpec::Null => seq!['N', 'U', 'L', 'L'],
    }
}

/// The views of a list of values.
pub open spec fn params_view(ps: Seq<ParamValue>) -> Seq<ParamSpec> {
    ps.map_values(|p: ParamValue| p@)
}

impl ParamValue {
    /// The SQL text of the value: the quoted or bare text, or `NULL`.
    pub fn as_sql(&self) -> (r: String)
        ensures
            r@ == param_sql(self@),
    {
        match self {
            ParamValue::Quoted(s) => s.clone(),
            ParamValue::Bare(s) => s.clone(),
            ParamValue::Null => {
                let v: Vec<char> = vec!['N', 'U', 'L', 'L'];
                string_from_chars(&v)
            },
        }
    }
}

// ───────────────────────────── placeholders ─────────────────────────────

/// End of the run of ASCII digits that starts at `j`.
pub open spec fn digits_end(s: Seq<char>, j: int) -> int
    decreases s.len() - j,
{
    if 0 <= j < s.len() && is_digit(s[j]) {
        digits_end(s, j + 1)
    } else {
        j
    }
}

/// The decimal value of a run of ASCII digits, computed in `usize` with
/// wrapping arithmetic (as the release build of the tool does).
pub open spec fn decimal(d: Seq<char>) -> usize
    decreases d.len(),
{
    if d.len() == 0 {
        0
    } else {
        vstd::wrapping::usize_specs::wrapping_add(
            vstd::wrapping::usize_specs::wrapping_mul(decimal(d.drop_last()), 10),
            ((d.last() as u32) - 48) as usize,
        )
    }
}

/// Scan for placeholders from position `i`: `q` counts the `?` seen outside
/// single-quoted literals, `m` is the highest `:N` ordinal seen.
pub open spec fn count_scan(s: Seq<char>, i: int, q: nat, m: usize) -> (nat, usize)
    decreases s.len() - i,
{
    if i < 0 || i >= s.len() {
        (q, m)
    } else if s[i] == '\'' {
        let k = skip_quoted(s, i + 1);
        if k <= i || k > s.len() {
            (q, m)
        } else {
            count_scan(s, k, q, m)
        }
    } else if s[i] == '?' {
        count_scan(s, i + 1, q + 1, m)
    } else if s[i] == ':' {
        let j = digits_end(s, i + 1);
        if j > i + 1 && j <= s.len() {
            let n = decimal(s.subrange(i + 1, j));
            count_scan(s, j, q, if n > m { n } else { m })
        } else {
            count_scan(s, i + 1, q, m)
        }
    } else {
        count_scan(s, i + 1, q, m)
    }
}

/// The placeholder style of a statement and its number of slots:
/// `(highest ordinal, true)` when some `:N` with `N > 0` occurs outside
/// literals, else `(number of ?, false)`.
pub open spec fn spec_count_placeholders(s: Seq<char>) -> (nat, bool) {
    let (q, m) = count_scan(s, 0, 0, 0);
    if m > 0 {
        (m as nat, true)
    } else {
        (q, false)
    }
}

/// The statement from position `i` on, with its placeholders replaced;
/// `idx` is the number of `?` replaced so far, `out` what is written so far.
pub open spec fn apply_scan(
    s: Seq<char>,
    i: int,
    ps: Seq<ParamSpec>,
    colon: bool,
    idx: nat,
    out: Seq<char>,
) -> Seq<char>
    decreases s.len() - i,
{
    if i < 0 || i >= s.len() {
        out
    } else if s[i] == '\'' {
        let k = skip_quoted(s, i + 1);
        if k <= i || k > s.len() {
            out
        } else {
            apply_scan(s, k, ps, colon, idx, out + s.subrange(i, k))
        }
    } else if s[i] == '?' && !colon {
        let o = if idx < ps.len() {
            out + param_sql(ps[idx as int])
        } else {
            out.push('?')
        };
        apply_scan(s, i + 1, ps, colon, idx + 1, o)
    } else if s[i] == ':' && colon {
        let j = digits_end(s, i + 1);
        if j > i + 1 && j <= s.len() {
            let n = decimal(s.subrange(i + 1, j));
            let o = if 1 <= n && n - 1 < ps.len() {
                out + param_sql(ps[n - 1])
            } else {
                out + s.subrange(i, j)
            };
            apply_scan(s, j, ps, colon, idx, o)
        } else {
            apply_scan(s, i + 1, ps, colon, idx, out.push(':'))
        }
    } else {
        apply_scan(s, i + 1, ps, colon, idx, out.push(s[i]))
    }
}

proof fn lemma_apply_scan_no_values(s: Seq<char>, i: int, colon: bool, idx: nat, out: Seq<char>)
    requires
        0 <= i <= s.len(),
    ensures
        apply_scan(s, i, seq![], colon, idx, out) == out + s.skip(i),
    decreases s.len() - i,
{
    if i < s.len() {
        if s[i] == '\'' {
            lemma_skip_quoted_ge(s, i + 1);
            let k = skip_quoted(s, i + 1);
            lemma_apply_scan_no_values(s, k, colon, idx, out + s.subrange(i, k));
            assert(out + s.subrange(i, k) + s.skip(k) =~= out + s.skip(i));
        } else if s[i] == '?' && !colon {
            lemma_apply_scan_no_values(s, i + 1, colon, idx + 1, out.push('?'));
            assert(out.push('?') + s.skip(i + 1) =~= out + s.skip(i));
        } else if s[i] == ':' && colon {
            let j = digits_end(s, i + 1);
            lemma_digits_end_bound(s, i + 1);
            if j > i + 1 && j <= s.len() {
                lemma_apply_scan_no_values(s, j, colon, idx, out + s.subrange(i, j));
                assert(out + s.subrange(i, j) + s.skip(j) =~= out + s.skip(i));
            } else {
                lemma_apply_scan_no_values(s, i + 1, colon, idx, out.push(':'));
                assert(out.push(':') + s.skip(i + 1) =~= out + s.skip(i));
            }
        } else {
            lemma_apply_scan_no_values(s, i + 1, colon, idx, out.push(s[i]));
            assert(out.push(s[i]) + s.skip(i + 1) =~= out + s.skip(i));
        }
    } else {
        assert(out + s.skip(i) =~= out);
    }
}

proof fn lemma_digits_end_bound(s: Seq<char>, j: int)
    requires
        0 <= j <= s.len(),
    ensures
        j <= digits_end(s, j) <= s.len(),
    decreases s.len() - j,
{
    if j < s.len() && is_digit(s[j]) {
        lemma_digits_end_bound(s, j + 1);
    }
}

/// Law: with no values to put in, substitution leaves a statement as it
/// is, whatever its placeholders and literals.
pub proof fn lemma_no_values_no_change(sql: Seq<char>, colon: bool)
    ensures
        spec_apply_params(sql, seq![], colon) == sql,
{
    lemma_apply_scan_no_values(sql, 0, colon, 0, seq![]);
    assert(seq![] + sql.skip(0) =~= sql);
}

proof fn lemma_count_scan_ge(s: Seq<char>, i: int, q: nat, m: usize)
    ensures
        count_scan(s, i, q, m).0 >= q,
        count_scan(s, i, q, m).1 >= m,
    decreases s.len() - i,
{
    if 0 <= i < s.len() {
        if s[i] == '\'' {
            let k = skip_quoted(s, i + 1);
            if !(k <= i || k > s.len()) {
                lemma_count_scan_ge(s, k, q, m);
            }
        } else if s[i] == '?' {
            lemma_count_scan_ge(s, i + 1, q + 1, m);
        } else if s[i] == ':' {
            let j = digits_end(s, i + 1);
            if j > i + 1 && j <= s.len() {
                let n = decimal(s.subrange(i + 1, j));
                lemma_count_scan_ge(s, j, q, if n > m { n } else { m });
            } else {
                lemma_count_scan_ge(s, i + 1, q, m);
            }
        } else {
            lemma_count_scan_ge(s, i + 1, q, m);
        }
    }
}

proof fn lemma_count_scan_digits(s: Seq<char>, p: int, j: int, q: nat, m: usize)
    requires
        0 <= p <= j <= s.len(),
        forall|r: int| p <= r < j ==> is_digit(#[trigger] s[r]),
    ensures
        count_scan(s, p, q, m) == count_scan(s, j, q, m),
    decreases j - p,
{
    if p < j {
        assert(is_digit(s[p]));
        lemma_count_scan_digits(s, p + 1, j, q, m);
    }
}

proof fn lemma_digits_end_digits(s: Seq<char>, j: int, r: int)
    requires
        0 <= j <= r < digits_end(s, j),
    ensures
        is_digit(s[r]),
    decreases s.len() - j,
{
    if 0 <= j < s.len() && is_digit(s[j]) {
        if r > j {
            lemma_digits_end_digits(s, j + 1, r);
        }
    }
}

proof fn lemma_apply_scan_no_slots(s: Seq<char>, i: int, ps: Seq<ParamSpec>, colon: bool, idx: nat, out: Seq<char>, q: nat)
    requires
        0 <= i <= s.len(),
        count_scan(s, i, q, 0) == (q, 0usize),
    ensures
        apply_scan(s, i, ps, colon, idx, out) == out + s.skip(i),
    decreases s.len() - i,
{
    if i < s.len() {
        if s[i] == '\'' {
            lemma_skip_quoted_ge(s, i + 1);
            let k = skip_quoted(s, i + 1);
            lemma_apply_scan_no_slots(s, k, ps, colon, idx, out + s.subrange(i, k), q);
            assert(out + s.subrange(i, k) + s.skip(k) =~= out + s.skip(i));
        } else if s[i] == '?' {
            lemma_count_scan_ge(s, i + 1, q + 1, 0);
        } else if s[i] == ':' {
            let j = digits_end(s, i + 1);
            lemma_digits_end_bound(s, i + 1);
            if j > i + 1 && j <= s.len() {
                let n = decimal(s.subrange(i + 1, j));
                lemma_count_scan_ge(s, j, q, if n > 0 { n } else { 0 });
                assert(n == 0);
                if colon {
                    lemma_apply_scan_no_slots(s, j, ps, colon, idx, out + s.subrange(i, j), q);
                    assert(out + s.subrange(i, j) + s.skip(j) =~= out + s.skip(i));
                } else {
                    assert forall|r: int| i + 1 <= r < j implies is_digit(#[trigger] s[r]) by {
                        lemma_digits_end_digits(s, i + 1, r);
                    }
                    lemma_count_scan_digits(s, i + 1, j, q, 0);
                    lemma_apply_scan_no_slots(s, i + 1, ps, colon, idx, out.push(':'), q);
                    assert(out.push(':') + s.skip(i + 1) =~= out + s.skip(i));
                }
            } else {
                lemma_apply_scan_no_slots(s, i + 1, ps, colon, idx, out.push(':'), q);
                assert(out.push(':') + s.skip(i + 1) =~= out + s.skip(i));
            }
        } else {
            lemma_apply_scan_no_slots(s, i + 1, ps, colon, idx, out.push(s[i]), q);
            assert(out.push(s[i]) + s.skip(i + 1) =~= out + s.skip(i));
        }
    } else {
        assert(out + s.skip(i) =~= out);
    }
}

/// Law: a statement whose placeholders all stand inside single-quoted
/// literals (so that it counts no slot) is left as it is by substitution,
/// whatever the values and the placeholder style: placeholders inside
/// literals are never replaced.
pub proof fn lemma_no_slots_no_change(sql: Seq<char>, ps: Seq<ParamSpec>, colon: bool)
    requires
        spec_count_placeholders(sql).0 == 0,
    ensures
        spec_apply_params(sql, ps, colon) == sql,
{
    lemma_count_scan_ge(sql, 0, 0, 0);
    lemma_apply_scan_no_slots(sql, 0, ps, colon, 0, seq![], 0);
    assert(seq![] + sql.skip(0) =~= sql);
}

/// `sql` with its placeholders replaced by `ps`.
pub open spec fn spec_apply_params(sql: Seq<char>, ps: Seq<ParamSpec>, colon: bool) -> Seq<char> {
    apply_scan(sql, 0, ps, colon, 0, seq![])
}

fn skip_quoted_at(s: &Vec<char>, j0: usize) -> (k: usize)
    requires
        j0 <= s.len(),
    ensures
        k == skip_quoted(s@, j0 as int),
        j0 <= k <= s.len(),
{
    let mut j = j0;
    loop
        invariant
            j0 <= j <= s.len(),
            skip_quoted(s@, j0 as int) == skip_quoted(s@, j as int),
        decreases s.len() - j,
    {
        if j >= s.len() {
            return s.len();
        }
        if s[j] == '\'' {
            if j + 1 < s.len() && s[j + 1] == '\'' {
                j = j + 2;
            } else {
                return j + 1;
            }
        } else {
            j = j + 1;
        }
    }
}

fn digits_end_at(s: &Vec<char>, j0: usize) -> (k: usize)
    requires
        j0 <= s.len(),
    ensures
        k == digits_end(s@, j0 as int),
        j0 <= k <= s.len(),
{
    let mut j = j0;
    while j < s.len() && digit_c(s[j])
        invariant
            j0 <= j <= s.len(),
            digits_end(s@, j0 as int) == digits_end(s@, j as int),
        decreases s.len() - j,
    {
        j += 1;
    }
    j
}

fn decimal_at(s: &Vec<char>, from: usize, to: usize) -> (n: usize)
    requires
        from <= to <= s.len(),
        forall|k: int| from <= k < to ==> is_digit(#[trigger] s@[k]),
    ensures
        n == decimal(s@.subrange(from as int, to as int)),
{
    let mut acc: usize = 0;
    let mut k = from;
    assert(s@.subrange(from as int, from as int) =~= Seq::<char>::empty());
    while k < to
        invariant
            from <= k <= to <= s.len(),
            forall|x: int| from <= x < to ==> is_digit(#[trigger] s@[x]),
            acc == decimal(s@.subrange(from as int, k as int)),
        decreases to - k,
    {
        let d: u32 = (s[k] as u32) - 48;
        acc = acc.wrapping_mul(10).wrapping_add(d as usize);
        assert(s@.subrange(from as int, k + 1).drop_last() =~= s@.subrange(from as int, k as int));
        k += 1;
    }
    acc
}

/// The placeholder style of `sql` and its number of slots, skipping
/// single-quoted literals: `(highest :N ordinal, true)` when the statement
/// uses `:N` placeholders, otherwise `(number of ?, false)`; `(0, false)`
/// when it has none.
pub fn count_placeholders(sql: &str) -> (r: (usize, bool))
    ensures
        (r.0 as nat, r.1) == spec_count_placeholders(sql@),
{
    let s = chars_of(sql);
    let mut i: usize = 0;
    let mut q: usize = 0;
    let mut m: usize = 0;
    while i < s.len()
        invariant
            i <= s.len(),
            q <= i,
            count_scan(s@, 0, 0, 0) == count_scan(s@, i as int, q as nat, m),
        decreases s.len() - i,
    {
        if s[i] == '\'' {
            i = skip_quoted_at(&s, i + 1);
        } else if s[i] == '?' {
            q += 1;
            i += 1;
        } else if s[i] == ':' {
            let j = digits_end_at(&s, i + 1);
            if j > i + 1 {
                proof {
                    lemma_digits_run(s@, i + 1, j as int);
                }
                let n = decimal_at(&s, i + 1, j);
                if n > m {
                    m = n;
                }
                i = j;
            } else {
                i += 1;
            }
        } else {
            i += 1;
        }
    }
    if m > 0 {
        (m, true)
    } else {
        (q, false)
    }
}

proof fn lemma_digits_run(s: Seq<char>, from: int, to: int)
    requires
        0 <= from <= s.len(),
        to == digits_end(s, from),
    ensures
        forall|k: int| from <= k < to ==> is_digit(#[trigger] s[k]),
    decreases s.len() - from,
{
    if 0 <= from < s.len() && is_digit(s[from]) {
        lemma_digits_run(s, from + 1, to);
    }
}

/// Appends `s[from..to]` to `out`.
fn push_range(out: &mut String, s: &Vec<char>, from: usize, to: usize)
    requires
        from <= to <= s.len(),
    ensures
        final(out)@ == old(out)@ + s@.subrange(from as int, to as int),
{
    let mut k = from;
    while k < to
        invariant
            from <= k <= to <= s.len(),
            out@ == old(out)@ + s@.subrange(from as int, k as int),
        decreases to - k,
    {
        push_char(out, s[k]);
        k += 1;
        assert(out@ =~= old(out)@ + s@.subrange(from as int, k as int));
    }
}

/// Appends the SQL text of `p` to `out`.
fn push_param(out: &mut String, p: &ParamValue)
    ensures
        final(out)@ == old(out)@ + param_sql(p@),
{
    let t = p.as_sql();
    let v = chars_of(t.as_str());
    let n = v.len();
    push_range(out, &v, 0, n);
    assert(v@.subrange(0, n as int) =~= v@);
}

/// `sql` with its placeholders replaced by `params`: with `colon_style`,
/// each `:N` becomes the `N`-th value (left alone when there is none);
/// otherwise the `k`-th `?` becomes the `k`-th value (left alone when there
/// is none).  Single-quoted literals are copied unchanged.
pub fn apply_params(sql: &str, params: &[ParamValue], colon_style: bool) -> (r: String)
    ensures
        r@ == spec_apply_params(sql@, params_view(params@), colon_style),
{
    let s = chars_of(sql);
    let ghost ps = params_view(params@);
    let mut out = String::new();
    let mut i: usize = 0;
    let mut idx: usize = 0;
    while i < s.len()
        invariant
            i <= s.len(),
            idx <= i,
            ps == params_view(params@),
            spec_apply_params(sql@, ps, colon_style) == apply_scan(
                s@,
                i as int,
                ps,
                colon_style,
                idx as nat,
                out@,
            ),
            s@ == sql@,
        decreases s.len() - i,
    {
        if s[i] == '\'' {
            let k = skip_quoted_at(&s, i + 1);
            push_range(&mut out, &s, i, k);
            i = k;
        } else if s[i] == '?' && !colon_style {
            if idx < params.len() {
                push_param(&mut out, &params[idx]);
            } else {
                push_char(&mut out, '?');
            }
            idx += 1;
            i += 1;
        } else if s[i] == ':' && colon_style {
            let j = digits_end_at(&s, i + 1);
            if j > i + 1 {
                proof {
                    lemma_digits_run(s@, i + 1, j as int);
                }
                let n = decimal_at(&s, i + 1, j);
                if n >= 1 && n - 1 < params.len() {
                    push_param(&mut out, &params[n - 1]);
                } else {
                    push_range(&mut out, &s, i, j);
                }
                i = j;
            } else {
                push_char(&mut out, ':');
                i += 1;
            }
        } else {
            push_char(&mut out, s[i]);
            i += 1;
        }
    }
    out
}

} // verus!

verus! {

// ───────────────────────────── PARAMS records ─────────────────────────────

/// First position at or after `from` that holds `c`.
pub open spec fn find_char(s: Seq<char>, c: char, from: int) -> Option<int>
    decreases s.len() - from,
{
    if from < 0 || from >= s.len() {
        None
    } else if s[from] == c {
        Some(from)
    } else {
        find_char(s, c, from + 1)
    }
}

/// First position at or after `from` where `x` is followed by `y`.
pub open spec fn find_pair(s: Seq<char>, x: char, y: char, from: int) -> Option<int>
    decreases s.len() - from,
{
    if from < 0 || from + 1 >= s.len() {
        None
    } else if s[from] == x && s[from + 1] == y {
        Some(from)
    } else {
        find_pair(s, x, y, from + 1)
    }
}

/// Position just after the quote that closes a literal whose body starts at
/// `j` (`''` is an escaped quote); `None` when the literal is not closed.
pub open spec fn quoted_end(s: Seq<char>, j: int) -> Option<int>
    decreases s.len() - j,
{
    if j < 0 || j >= s.len() {
        None
    } else if s[j] == '\'' {
        if j + 1 < s.len() && s[j + 1] == '\'' {
            quoted_end(s, j + 2)
        } else {
            Some(j + 1)
        }
    } else {
        quoted_end(s, j + 1)
    }
}

/// Position after the white space that starts at `j`.
pub open spec fn skip_uws(s: Seq<char>, j: int) -> int {
    j + lead_uws(s.skip(j))
}

/// One `(seqno, type, value)` entry starting at `i`: its value and the
/// position just after its closing `)`.
pub open spec fn parse_entry_at(s: Seq<char>, i: int) -> Option<(ParamSpec, int)> {
    if i < 0 || i >= s.len() || s[i] != '(' {
        None
    } else {
        match find_char(s, ',', i + 1) {
            None => None,
            Some(c1) => {
                let b = skip_uws(s, c1 + 1);
                match find_char(s, ',', b) {
                    None => None,
                    Some(c2) => {
                        let d = skip_uws(s, c2 + 1);
                        if d < s.len() && s[d] == '\'' {
                            match quoted_end(s, d + 1) {
                                None => None,
                                Some(e) => {
                                    let w = skip_uws(s, e);
                                    if w < s.len() && s[w] == ')' {
                                        Some((ParamSpec::Quoted(s.subrange(d, e)), w + 1))
                                    } else {
                                        None
                                    }
                                },
                            }
                        } else {
                            match find_char(s, ')', d) {
                                None => None,
                                Some(p) => {
                                    let raw = trim(s.subrange(d, p));
                                    Some(
                                        (
                                            if raw.len() == 0 {
                                                ParamSpec::Null
                                            } else {
                                                ParamSpec::Bare(raw)
                                            },
                                            p + 1,
                                        ),
                                    )
                                },
                            }
                        }
                    },
                }
            },
        }
    }
}

/// The entries from position `i` to the end of `s`, separated by optional
/// commas and white space.
pub open spec fn parse_list(s: Seq<char>, i: int) -> Option<Seq<ParamSpec>>
    decreases s.len() - i,
{
    if i < 0 || i >= s.len() {
        Some(seq![])
    } else {
        match parse_entry_at(s, i) {
            None => None,
            Some((v, t)) => {
                let t1 = skip_uws(s, t);
                let t2 = if 0 <= t1 < s.len() && s[t1] == ',' {
                    skip_uws(s, t1 + 1)
                } else {
                    t1
                };
                if t2 <= i || t2 > s.len() {
                    None
                } else {
                    match parse_list(s, t2) {
                        None => None,
                        Some(vs) => Some(seq![v] + vs),
                    }
                }
            },
        }
    }
}

/// The values of a `PARAMS(SEQNO, TYPE, DATA)={...}` record body, or `None`
/// when it does not have that form: the text after the first `={` must end
/// with `}`, and what lies between is a list of entries.
pub open spec fn spec_parse_params(body: Seq<char>) -> Option<Seq<ParamSpec>> {
    match find_pair(body, '=', '{', 0) {
        None => None,
        Some(b) => {
            let rest = body.skip(b + 2);
            if rest.len() == 0 || rest.last() != '}' {
                None
            } else {
                let inner = rest.drop_last();
                parse_list(inner, lead_uws(inner) as int)
            }
        },
    }
}

pub open spec fn prepend(p: Seq<ParamSpec>, o: Option<Seq<ParamSpec>>) -> Option<Seq<ParamSpec>> {
    match o {
        None => None,
        Some(vs) => Some(p + vs),
    }
}

fn find_char_from(s: &Vec<char>, c: char, from: usize) -> (r: Option<usize>)
    requires
        from <= s.len(),
    ensures
        match r {
            Some(k) => find_char(s@, c, from as int) == Some(k as int) && from <= k < s.len(),
            None => find_char(s@, c, from as int) is None,
        },
{
    let mut j = from;
    while j < s.len()
        invariant
            from <= j <= s.len(),
            find_char(s@, c, from as int) == find_char(s@, c, j as int),
        decreases s.len() - j,
    {
        if s[j] == c {
            return Some(j);
        }
        j += 1;
    }
    None
}

fn find_pair_from(s: &Vec<char>, x: char, y: char) -> (r: Option<usize>)
    ensures
        match r {
            Some(k) => find_pair(s@, x, y, 0) == Some(k as int) && k + 1 < s.len(),
            None => find_pair(s@, x, y, 0) is None,
        },
{
    let mut j: usize = 0;
    while j < s.len() && s.len() - j >= 2
        invariant
            j <= s.len(),
            find_pair(s@, x, y, 0) == find_pair(s@, x, y, j as int),
        decreases s.len() - j,
    {
        if s[j] == x && s[j + 1] == y {
            return Some(j);
        }
        j += 1;
    }
    None
}

fn quoted_end_at(s: &Vec<char>, j0: usize) -> (r: Option<usize>)
    requires
        j0 <= s.len(),
    ensures
        match r {
            Some(k) => quoted_end(s@, j0 as int) == Some(k as int) && j0 < k <= s.len(),
            None => quoted_end(s@, j0 as int) is None,
        },
{
    let mut j = j0;
    while j < s.len()
        invariant
            j0 <= j <= s.len(),
            quoted_end(s@, j0 as int) == quoted_end(s@, j as int),
        decreases s.len() - j,
    {
        if s[j] == '\'' {
            if j + 1 < s.len() && s[j + 1] == '\'' {
                j = j + 2;
            } else {
                return Some(j + 1);
            }
        } else {
            j += 1;
        }
    }
    None
}

fn string_of_range(s: &Vec<char>, from: usize, to: usize) -> (r: String)
    requires
        from <= to <= s.len(),
    ensures
        r@ == s@.subrange(from as int, to as int),
{
    let mut out = String::new();
    push_range(&mut out, s, from, to);
    assert(out@ =~= s@.subrange(from as int, to as int));
    out
}

fn skip_uws_at(s: &Vec<char>, j: usize) -> (r: usize)
    requires
        j <= s.len(),
    ensures
        r as int == skip_uws(s@, j as int),
        j <= r <= s.len(),
{
    j + lead_uws_at(s, j)
}

/// Parses one `(seqno, type, value)` entry that starts at `i`.
fn parse_one_entry(s: &Vec<char>, i: usize) -> (r: Option<(ParamValue, usize)>)
    requires
        i <= s.len(),
    ensures
        match r {
            Some((v, t)) => parse_entry_at(s@, i as int) == Some((v@, t as int)) && i < t <= s.len(),
            None => parse_entry_at(s@, i as int) is None,
        },
{
    if i >= s.len() || s[i] != '(' {
        return None;
    }
    let c1 = match find_char_from(s, ',', i + 1) {
        Some(k) => k,
        None => return None,
    };
    let b = skip_uws_at(s, c1 + 1);
    let c2 = match find_char_from(s, ',', b) {
        Some(k) => k,
        None => return None,
    };
    let d = skip_uws_at(s, c2 + 1);
    if d < s.len() && s[d] == '\'' {
        let e = match quoted_end_at(s, d + 1) {
            Some(k) => k,
            None => return None,
        };
        let w = skip_uws_at(s, e);
        if w < s.len() && s[w] == ')' {
            let q = string_of_range(s, d, e);
            Some((ParamValue::Quoted(q), w + 1))
        } else {
            None
        }
    } else {
        let p = match find_char_from(s, ')', d) {
            Some(k) => k,
            None => return None,
        };
        let a = lead_uws_at(s, d);
        let ghost sub = s@.subrange(d as int, p as int);
        proof {
            assert(s@.skip(d as int).take(p - d) =~= sub);
            lemma_lead_uws_prefix(s@.skip(d as int), (p - d) as nat);
        }
        if a >= p - d {
            proof {
                assert(trim(sub) =~= Seq::<char>::empty()) by {
                    lemma_lead_uws_bound(sub);
                }
            }
            return Some((ParamValue::Null, p + 1));
        }
        let z = trail_uws_in(s, d + a, p);
        proof {
            assert(trim_start(sub) =~= s@.subrange(d + a, p as int));
        }
        if z >= p - d - a {
            proof {
                lemma_trail_bound_sub(s@, (d + a) as int, p as int);
            }
            return Some((ParamValue::Null, p + 1));
        }
        let raw = string_of_range(s, d + a, p - z);
        proof {
            assert(trim(sub) =~= s@.subrange(d + a, p - z));
        }
        Some((ParamValue::Bare(raw), p + 1))
    }
}

proof fn lemma_trail_bound_sub(s: Seq<char>, from: int, to: int)
    requires
        0 <= from <= to <= s.len(),
    ensures
        trail_uws(s.subrange(from, to)) <= to - from,
{
    crate::text::lemma_trail_uws_bound(s.subrange(from, to));
}

/// The white space counted at the start of a prefix: when `t` begins with
/// `n` or more characters, the count on `t.take(n)` is the count on `t`
/// capped at `n`.
proof fn lemma_lead_uws_prefix(t: Seq<char>, n: nat)
    requires
        n <= t.len(),
    ensures
        lead_uws(t.take(n as int)) == if lead_uws(t) < n {
            lead_uws(t)
        } else {
            n
        },
    decreases n,
{
    if n > 0 && is_uws_first(t) {
        assert(t.take(n as int).drop_first() =~= t.drop_first().take(n - 1));
        lemma_lead_uws_prefix(t.drop_first(), (n - 1) as nat);
    }
}

spec fn is_uws_first(t: Seq<char>) -> bool {
    t.len() > 0 && crate::text::is_uws(t[0])
}

/// The values of a `PARAMS(SEQNO, TYPE, DATA)={...}` record body, in order;
/// `None` when the body does not have that form.
pub fn parse_params(body: &str) -> (r: Option<Vec<ParamValue>>)
    ensures
        match r {
            Some(v) => spec_parse_params(body@) == Some(params_view(v@)),
            None => spec_parse_params(body@) is None,
        },
{
    let all = chars_of(body);
    let b = match find_pair_from(&all, '=', '{') {
        Some(k) => k,
        None => return None,
    };
    if b + 2 >= all.len() || all[all.len() - 1] != '}' {
        proof {
            assert(all@.skip(b + 2).len() == 0 || all@.skip(b + 2).last() == all@.last());
        }
        return None;
    }
    let mut s: Vec<char> = Vec::new();
    let mut k = b + 2;
    while k < all.len() - 1
        invariant
            b + 2 <= k <= all.len() - 1,
            s@ == all@.subrange(b + 2, k as int),
        decreases all.len() - 1 - k,
    {
        s.push(all[k]);
        k += 1;
        assert(s@ =~= all@.subrange(b + 2, k as int));
    }
    proof {
        assert(all@.skip(b + 2).drop_last() =~= s@);
        assert(all@.skip(b + 2).last() == all@.last());
    }
    let mut out: Vec<ParamValue> = Vec::new();
    let i0 = lead_uws_at(&s, 0);
    assert(s@.skip(0) =~= s@);
    let mut i = i0;
    assert(spec_parse_params(body@) == parse_list(s@, i0 as int));
    assert(params_view(out@) =~= Seq::<ParamSpec>::empty());
    assert(prepend(seq![], parse_list(s@, i as int)) =~= parse_list(s@, i as int)) by {
        match parse_list(s@, i as int) {
            Some(vs) => {
                assert(Seq::<ParamSpec>::empty() + vs =~= vs);
            },
            None => {},
        }
    }
    while i < s.len()
        invariant
            i <= s.len(),
            spec_parse_params(body@) == parse_list(s@, i0 as int),
            parse_list(s@, i0 as int) == prepend(params_view(out@), parse_list(s@, i as int)),
        decreases s.len() - i,
    {
        let (v, t) = match parse_one_entry(&s, i) {
            Some(x) => x,
            None => {
                assert(parse_list(s@, i as int) is None);
                return None;
            },
        };
        let t1 = skip_uws_at(&s, t);
        let t2 = if t1 < s.len() && s[t1] == ',' {
            skip_uws_at(&s, t1 + 1)
        } else {
            t1
        };
        let ghost before = params_view(out@);
        out.push(v);
        proof {
            assert(params_view(out@) =~= before + seq![v@]);
            match parse_list(s@, t2 as int) {
                Some(vs) => {
                    assert(before + (seq![v@] + vs) =~= (before + seq![v@]) + vs);
                },
                None => {},
            }
        }
        i = t2;
    }
    proof {
        assert(params_view(out@) + Seq::<ParamSpec>::empty() =~= params_view(out@));
    }
    Some(out)
}

} // verus!

verus! {

// ───────────────────────────── buffered values ─────────────────────────────

/// Values buffered for one `(trxid, statement)` pair.
#[derive(Debug)]
pub struct ParamEntry {
    pub trxid: String,
    pub statement: String,
    pub params: Vec<ParamValue>,
}

pub open spec fn entry_key(e: ParamEntry) -> (Seq<char>, Seq<char>) {
    (e.trxid@, e.statement@)
}

/// The values found for key `k` in `es`: those of the last entry with that key.
pub open spec fn buf_get(es: Seq<ParamEntry>, k: (Seq<char>, Seq<char>)) -> Option<Seq<ParamSpec>>
    decreases es.len(),
{
    if es.len() == 0 {
        None
    } else if entry_key(es.last()) == k {
        Some(params_view(es.last().params@))
    } else {
        buf_get(es.drop_last(), k)
    }
}

/// `es` without the entries whose key is `k`.
pub open spec fn filter_out(es: Seq<ParamEntry>, k: (Seq<char>, Seq<char>)) -> Seq<ParamEntry>
    decreases es.len(),
{
    if es.len() == 0 {
        es
    } else if entry_key(es.last()) == k {
        filter_out(es.drop_last(), k)
    } else {
        filter_out(es.drop_last(), k).push(es.last())
    }
}

proof fn lemma_get_filter_out(es: Seq<ParamEntry>, k: (Seq<char>, Seq<char>), k2: (Seq<char>, Seq<char>))
    ensures
        buf_get(filter_out(es, k), k2) == if k2 == k {
            None
        } else {
            buf_get(es, k2)
        },
    decreases es.len(),
{
    if es.len() > 0 {
        lemma_get_filter_out(es.drop_last(), k, k2);
        if entry_key(es.last()) != k {
            let f = filter_out(es.drop_last(), k).push(es.last());
            assert(f.drop_last() =~= filter_out(es.drop_last(), k));
        }
    }
}

/// The values buffered per `(trxid, statement)` until the execution that
/// uses them.
#[derive(Debug)]
pub struct ParamBuffer {
    entries: Vec<ParamEntry>,
}

impl View for ParamBuffer {
    type V = Map<(Seq<char>, Seq<char>), Seq<ParamSpec>>;

    closed spec fn view(&self) -> Map<(Seq<char>, Seq<char>), Seq<ParamSpec>> {
        Map::new(
            |k: (Seq<char>, Seq<char>)| buf_get(self.entries@, k) is Some,
            |k: (Seq<char>, Seq<char>)| buf_get(self.entries@, k)->0,
        )
    }
}

impl ParamBuffer {
    /// An empty buffer.
    pub fn new() -> (b: Self)
        ensures
            b@ == Map::<(Seq<char>, Seq<char>), Seq<ParamSpec>>::empty(),
    {
        let b = ParamBuffer { entries: Vec::new() };
        assert(b@ =~= Map::<(Seq<char>, Seq<char>), Seq<ParamSpec>>::empty());
        b
    }

    /// Number of keys with buffered values.
    pub fn is_empty(&self) -> (r: bool)
        ensures
            r == (self@.dom() == Set::<(Seq<char>, Seq<char>)>::empty()),
    {
        if self.entries.len() == 0 {
            assert(self@.dom() =~= Set::<(Seq<char>, Seq<char>)>::empty());
            true
        } else {
            let ghost k = entry_key(self.entries@.last());
            assert(self@.dom().contains(k));
            false
        }
    }

    /// Takes out every entry whose key is `(trxid, statement)`.
    fn take_key(&mut self, trxid: &str, statement: &str) -> (r: Option<Vec<ParamValue>>)
        ensures
            final(self).entries@ == filter_out(old(self).entries@, (trxid@, statement@)),
            match r {
                Some(v) => buf_get(old(self).entries@, (trxid@, statement@)) == Some(params_view(v@)),
                None => buf_get(old(self).entries@, (trxid@, statement@)) is None,
            },
    {
        let ghost k = (trxid@, statement@);
        let ghost orig = self.entries@;
        let ghost mut j: int = 0;
        let mut i: usize = 0;
        let mut found: Option<Vec<ParamValue>> = None;
        assert(orig.take(0) =~= Seq::<ParamEntry>::empty());
        assert(orig.skip(0) =~= orig);
        while i < self.entries.len()
            invariant
                0 <= j <= orig.len(),
                self.entries@ == filter_out(orig.take(j), k) + orig.skip(j),
                i == filter_out(orig.take(j), k).len(),
                k == (trxid@, statement@),
                match found {
                    Some(v) => buf_get(orig.take(j), k) == Some(params_view(v@)),
                    None => buf_get(orig.take(j), k) is None,
                },
            decreases self.entries.len() - i,
        {
            let ghost f = filter_out(orig.take(j), k);
            assert(orig.take(j + 1).drop_last() =~= orig.take(j));
            assert(self.entries@[i as int] == orig[j]);
            let same = crate::text::str_eq(self.entries[i].trxid.as_str(), trxid)
                && crate::text::str_eq(self.entries[i].statement.as_str(), statement);
            if same {
                let e = self.entries.remove(i);
                assert(self.entries@ =~= f + orig.skip(j + 1));
                found = Some(e.params);
            } else {
                assert(f.push(orig[j]) + orig.skip(j + 1) =~= f + orig.skip(j));
                i += 1;
            }
            proof {
                j = j + 1;
            }
        }
        assert(orig.take(j) =~= orig);
        assert(orig.skip(j) =~= Seq::<ParamEntry>::empty());
        assert(self.entries@ =~= filter_out(orig, k));
        found
    }

    /// Buffers `params` for `(trxid, statement)`, replacing what was buffered
    /// for that pair.
    pub fn insert(&mut self, trxid: &str, statement: &str, params: Vec<ParamValue>)
        ensures
            final(self)@ == old(self)@.insert((trxid@, statement@), params_view(params@)),
    {
        let ghost k = (trxid@, statement@);
        let ghost orig = self.entries@;
        let _ = self.take_key(trxid, statement);
        let t = crate::text::owned(trxid);
        let st = crate::text::owned(statement);
        let ghost pv = params_view(params@);
        self.entries.push(ParamEntry { trxid: t, statement: st, params });
        proof {
            assert(self.entries@.drop_last() == filter_out(orig, k));
            assert forall|k2: (Seq<char>, Seq<char>)| #![auto]
                buf_get(self.entries@, k2) == if k2 == k { Some(pv) } else { buf_get(orig, k2) } by {
                lemma_get_filter_out(orig, k, k2);
            }
            assert(self@ =~= old(self)@.insert(k, pv));
        }
    }

    /// Takes out the values buffered for `(trxid, statement)`.
    pub fn remove(&mut self, trxid: &str, statement: &str) -> (r: Option<Vec<ParamValue>>)
        ensures
            final(self)@ == old(self)@.remove((trxid@, statement@)),
            match r {
                Some(v) => old(self)@.contains_key((trxid@, statement@)) && old(self)@[(trxid@, statement@)] == params_view(v@),
                None => !old(self)@.contains_key((trxid@, statement@)),
            },
    {
        let ghost k = (trxid@, statement@);
        let ghost orig = self.entries@;
        let r = self.take_key(trxid, statement);
        proof {
            assert forall|k2: (Seq<char>, Seq<char>)| #![auto]
                buf_get(self.entries@, k2) == if k2 == k { None } else { buf_get(orig, k2) } by {
                lemma_get_filter_out(orig, k, k2);
            }
            assert(self@ =~= old(self)@.remove(k));
        }
        r
    }
}

// ───────────────────────────── per-record step ─────────────────────────────

/// The prefix of a `PARAMS` record body.
pub open spec fn params_prefix() -> Seq<char> {
    seq!['P', 'A', 'R', 'A', 'M', 'S', '(']
}

/// The tags of execution records whose SQL may get its parameters.
pub open spec fn is_exec_tag(t: Seq<char>) -> bool {
    t == seq!['I', 'N', 'S'] || t == seq!['D', 'E', 'L'] || t == seq!['U', 'P', 'D'] || t == seq![
        'S',
        'E',
        'L',
    ]
}

/// What one record does to the buffer, and the SQL with substituted
/// parameters that it yields.
///
/// - A record without tag whose body starts with `PARAMS(` and parses
///   buffers its values for its `(trxid, statement)`; it yields nothing.
/// - An execution record (`INS`, `DEL`, `UPD`, `SEL`) whose SQL has
///   placeholders takes the values buffered for its pair (each `PARAMS`
///   serves one execution); when their number equals the number of slots it
///   yields the SQL with the values substituted.
/// - Every other record leaves the buffer alone and yields nothing.
pub open spec fn spec_normalized(
    tag: Option<Seq<char>>,
    key: (Seq<char>, Seq<char>),
    pm_sql: Seq<char>,
    m: Map<(Seq<char>, Seq<char>), Seq<ParamSpec>>,
    placeholder_override: Option<bool>,
) -> (Option<Seq<char>>, Map<(Seq<char>, Seq<char>), Seq<ParamSpec>>) {
    match tag {
        None => {
            if crate::text::starts_with(pm_sql, params_prefix()) && spec_parse_params(pm_sql) is Some {
                (None, m.insert(key, spec_parse_params(pm_sql)->0))
            } else {
                (None, m)
            }
        },
        Some(t) => {
            let (n, colon) = spec_count_placeholders(pm_sql);
            if !is_exec_tag(t) || n == 0 {
                (None, m)
            } else if !m.contains_key(key) {
                (None, m)
            } else {
                let ps = m[key];
                let style = match placeholder_override {
                    Some(b) => b,
                    None => colon,
                };
                if ps.len() != n {
                    (None, m.remove(key))
                } else {
                    (Some(spec_apply_params(pm_sql, ps, style)), m.remove(key))
                }
            }
        },
    }
}

fn is_exec_tag_exec(t: &str) -> (r: bool)
    ensures
        r == is_exec_tag(t@),
{
    let v = chars_of(t);
    let ins: Vec<char> = vec!['I', 'N', 'S'];
    let del: Vec<char> = vec!['D', 'E', 'L'];
    let upd: Vec<char> = vec!['U', 'P', 'D'];
    let sel: Vec<char> = vec!['S', 'E', 'L'];
    crate::text::seq_eq(&v, &ins) || crate::text::seq_eq(&v, &del) || crate::text::seq_eq(&v, &upd)
        || crate::text::seq_eq(&v, &sel)
}

/// Handles one log record for parameter substitution; see
/// [`spec_normalized`] for what it does.  `tag` is the record's tag,
/// `trxid` and `statement` its transaction and statement ids, `pm_sql` its
/// SQL (for a `PARAMS` record, its body).  `placeholder_override` forces the
/// `:N` style (`Some(true)`) or the `?` style (`Some(false)`); `None`
/// detects the style from the SQL.
pub fn compute_normalized(
    tag: Option<&str>,
    trxid: &str,
    statement: &str,
    pm_sql: &str,
    buffer: &mut ParamBuffer,
    placeholder_override: Option<bool>,
) -> (r: Option<String>)
    ensures
        ({
            let tag_view = match tag {
                Some(t) => Some(t@),
                None => None,
            };
            let (res, m) = spec_normalized(
                tag_view,
                (trxid@, statement@),
                pm_sql@,
                old(buffer)@,
                placeholder_override,
            );
            &&& final(buffer)@ == m
            &&& match r {
                Some(s) => res == Some(s@),
                None => res is None,
            }
        }),
{
    match tag {
        None => {
            let sql = chars_of(pm_sql);
            let prefix: Vec<char> = vec!['P', 'A', 'R', 'A', 'M', 'S', '('];
            if crate::text::starts_with_exec(&sql, &prefix) {
                if let Some(params) = parse_params(pm_sql) {
                    buffer.insert(trxid, statement, params);
                }
            }
            None
        },
        Some(t) => {
            if !is_exec_tag_exec(t) {
                return None;
            }
            let (count, detected_colon) = count_placeholders(pm_sql);
            if count == 0 {
                return None;
            }
            let params = match buffer.remove(trxid, statement) {
                Some(p) => p,
                None => return None,
            };
            let colon_style = match placeholder_override {
                Some(b) => b,
                None => detected_colon,
            };
            if params.len() != count {
                return None;
            }
            Some(apply_params(pm_sql, params.as_slice(), colon_style))
        },
    }
}

// ───────────────────────────── laws ─────────────────────────────

/// Law: the values of a `PARAMS` record serve the next execution of the same
/// `(trxid, statement)` pair exactly once.  After the `PARAMS` record, an
/// execution whose SQL has as many slots as there are values yields the SQL
/// with the values substituted; a second execution of the pair right after
/// it yields nothing, for its values were used up.
pub proof fn lemma_params_serve_one_execution(
    key: (Seq<char>, Seq<char>),
    params_body: Seq<char>,
    exec_tag: Seq<char>,
    sql: Seq<char>,
    m: Map<(Seq<char>, Seq<char>), Seq<ParamSpec>>,
    placeholder_override: Option<bool>,
)
    requires
        crate::text::starts_with(params_body, params_prefix()),
        spec_parse_params(params_body) is Some,
        is_exec_tag(exec_tag),
        spec_count_placeholders(sql).0 > 0,
        spec_parse_params(params_body)->0.len() == spec_count_placeholders(sql).0,
    ensures
        ({
            let vals = spec_parse_params(params_body)->0;
            let style = match placeholder_override {
                Some(b) => b,
                None => spec_count_placeholders(sql).1,
            };
            let (r1, m1) = spec_normalized(None, key, params_body, m, placeholder_override);
            let (r2, m2) = spec_normalized(Some(exec_tag), key, sql, m1, placeholder_override);
            let (r3, m3) = spec_normalized(Some(exec_tag), key, sql, m2, placeholder_override);
            &&& r1 is None
            &&& r2 == Some(spec_apply_params(sql, vals, style))
            &&& r3 is None
            &&& m3 == m2
            &&& m2 == m.remove(key)
        }),
{
    let vals = spec_parse_params(params_body)->0;
    let m1 = m.insert(key, vals);
    assert(m1.remove(key) =~= m.remove(key));
}

/// Law: a record of another `(trxid, statement)` pair leaves the values
/// buffered for a pair as they are.
pub proof fn lemma_other_key_untouched(
    tag: Option<Seq<char>>,
    key: (Seq<char>, Seq<char>),
    other: (Seq<char>, Seq<char>),
    pm_sql: Seq<char>,
    m: Map<(Seq<char>, Seq<char>), Seq<ParamSpec>>,
    placeholder_override: Option<bool>,
)
    requires
        key != other,
    ensures
        spec_normalized(tag, other, pm_sql, m, placeholder_override).1.contains_key(key)
            == m.contains_key(key),
        m.contains_key(key) ==> spec_normalized(tag, other, pm_sql, m, placeholder_override).1[key]
            == m[key],
{
}

/// Law: the records that get their parameters substituted are exactly the
/// executions tagged `INS`, `DEL`, `UPD` or `SEL`.  When values are
/// buffered for the pair of a record with placeholders, as many as it has
/// slots, the record yields its SQL with them substituted (and uses them
/// up) if its tag is one of these four, and yields nothing and leaves the
/// buffer alone for any other tag.
pub proof fn lemma_substituting_tags(
    tag: Seq<char>,
    key: (Seq<char>, Seq<char>),
    sql: Seq<char>,
    m: Map<(Seq<char>, Seq<char>), Seq<ParamSpec>>,
    placeholder_override: Option<bool>,
)
    requires
        spec_count_placeholders(sql).0 > 0,
        m.contains_key(key),
        m[key].len() == spec_count_placeholders(sql).0,
    ensures
        ({
            let style = match placeholder_override {
                Some(b) => b,
                None => spec_count_placeholders(sql).1,
            };
            let (r, m2) = spec_normalized(Some(tag), key, sql, m, placeholder_override);
            &&& (tag == seq!['I', 'N', 'S'] || tag == seq!['D', 'E', 'L'] || tag == seq!['U', 'P', 'D']
                || tag == seq!['S', 'E', 'L']) ==> r == Some(spec_apply_params(sql, m[key], style)) && m2 == m.remove(key)
            &&& !(tag == seq!['I', 'N', 'S'] || tag == seq!['D', 'E', 'L'] || tag == seq!['U', 'P', 'D']
                || tag == seq!['S', 'E', 'L']) ==> r is None && m2 == m
        }),
{
}

/// The value of a run of decimal digits, as a number.
pub open spec fn digits_value(d: Seq<char>) -> nat
    decreases d.len(),
{
    if d.len() == 0 {
        0
    } else {
        digits_value(d.drop_last()) * 10 + (((d.last() as u32) - 48) as nat)
    }
}

proof fn lemma_decimal_value(d: Seq<char>)
    requires
        forall|i: int| 0 <= i < d.len() ==> is_digit(#[trigger] d[i]),
        digits_value(d) <= usize::MAX,
    ensures
        decimal(d) as nat == digits_value(d),
    decreases d.len(),
{
    if d.len() > 0 {
        let p = d.drop_last();
        assert forall|i: int| 0 <= i < p.len() implies is_digit(#[trigger] p[i]) by {
            assert(p[i] == d[i]);
        }
        assert(is_digit(d[d.len() - 1]));
        let dig: nat = ((d.last() as u32) - 48) as nat;
        assert(dig <= 9);
        assert(digits_value(p) <= usize::MAX);
        lemma_decimal_value(p);
        let x = decimal(p);
        assert((x as nat) * 10 <= usize::MAX);
        vstd::arithmetic::div_mod::lemma_small_mod((x as nat) * 10, (usize::MAX as nat) + 1);
        assert(vstd::wrapping::usize_specs::wrapping_mul(x, 10) == (x as nat) * 10);
    }
}

proof fn lemma_apply_plain_run(s: Seq<char>, i: int, e: int, ps: Seq<ParamSpec>, idx: nat, out: Seq<char>)
    requires
        0 <= i <= e <= s.len(),
        forall|p: int| i <= p < e ==> #[trigger] s[p] != ':' && s[p] != '\'',
    ensures
        apply_scan(s, i, ps, true, idx, out) == apply_scan(s, e, ps, true, idx, out + s.subrange(i, e)),
    decreases e - i,
{
    if i < e {
        assert(s[i] != ':' && s[i] != '\'');
        lemma_apply_plain_run(s, i + 1, e, ps, idx, out.push(s[i]));
        assert(out.push(s[i]) + s.subrange(i + 1, e) =~= out + s.subrange(i, e));
    } else {
        assert(out + s.subrange(i, e) =~= out);
    }
}

proof fn lemma_digits_end_run(s: Seq<char>, j: int, e: int)
    requires
        0 <= j <= e <= s.len(),
        forall|p: int| j <= p < e ==> is_digit(#[trigger] s[p]),
        e == s.len() || !is_digit(s[e]),
    ensures
        digits_end(s, j) == e,
    decreases e - j,
{
    if j < e {
        lemma_digits_end_run(s, j + 1, e);
    }
}

/// Law: in the `:N` style an ordinal is read with all its digits.  In a
/// statement whose only placeholder is `:N` (no other `:` and no quote
/// before or after it, and no digit right after it), where `N` is the
/// whole decimal number after the colon and at most the number of values,
/// substitution puts the `N`-th value in place of `:N`, and nothing else
/// changes.
pub proof fn lemma_colon_ordinal_whole(a: Seq<char>, d: Seq<char>, b: Seq<char>, ps: Seq<ParamSpec>)
    requires
        forall|p: int| 0 <= p < a.len() ==> #[trigger] a[p] != ':' && a[p] != '\'',
        forall|p: int| 0 <= p < b.len() ==> #[trigger] b[p] != ':' && b[p] != '\'',
        d.len() > 0,
        forall|p: int| 0 <= p < d.len() ==> is_digit(#[trigger] d[p]),
        b.len() == 0 || !is_digit(b[0]),
        1 <= digits_value(d) <= ps.len(),
        ps.len() <= usize::MAX,
    ensures
        spec_apply_params(a + seq![':'] + d + b, ps, true) == a + param_sql(ps[digits_value(d) - 1]) + b,
{
    let s = a + seq![':'] + d + b;
    let k = a.len() as int;
    let j = k + 1 + d.len();
    assert forall|p: int| 0 <= p < k implies #[trigger] s[p] != ':' && s[p] != '\'' by {
        assert(s[p] == a[p]);
    }
    lemma_apply_plain_run(s, 0, k, ps, 0, seq![]);
    assert(s.subrange(0, k) =~= a);
    assert(seq![] + a =~= a);
    assert(s[k] == ':');
    assert forall|p: int| k + 1 <= p < j implies is_digit(#[trigger] s[p]) by {
        assert(s[p] == d[p - k - 1]);
    }
    if j < s.len() {
        assert(s[j] == b[0]);
    }
    lemma_digits_end_run(s, k + 1, j);
    assert(s.subrange(k + 1, j) =~= d);
    lemma_decimal_value(d);
    let n = decimal(d);
    let o = a + param_sql(ps[n - 1]);
    assert(apply_scan(s, k, ps, true, 0, a) == apply_scan(s, j, ps, true, 0, o));
    assert forall|p: int| j <= p < s.len() implies #[trigger] s[p] != ':' && s[p] != '\'' by {
        assert(s[p] == b[p - j]);
    }
    lemma_apply_plain_run(s, j, s.len() as int, ps, 0, o);
    assert(s.subrange(j, s.len() as int) =~= b);
}

} // verus!
