//! Interface language (Chinese or English) and how it is chosen:
//! the `--lang` flag first, then the `SQLLOG2DB_LANG` variable, then the
//! system locale (`LANG`, `LC_ALL`, `LANGUAGE`), else English.

use vstd::prelude::*;
use crate::text::{chars_of, is_ascii_chars, lower, seq_eq, starts_with, starts_with_exec};

verus! {

#[derive(Debug, Clone, Copy, PartialEq, Eq, Structural)]
pub enum Lang {
    En,
    Zh,
}

impl Default for Lang {
    fn default() -> (l: Self)
        ensures
            l == Lang::En,
    {
        Lang::En
    }
}

/// What `str::to_lowercase` gives for `s` (full Unicode lower-casing).
pub uninterp spec fn lowercase(s: Seq<char>) -> Seq<char>;

/// Lower-cases `s` (`str::to_lowercase`).
/// Trusted: the result is `str::to_lowercase` of `s`, a function of `s`
/// alone, named `lowercase`; on an all-ASCII `s` it maps each character
/// by itself, the letters `A`-`Z` to `a`-`z` and every other character
/// to itself (the Unicode lower-case mapping of ASCII).
#[verifier::external_body]
pub(crate) fn to_lowercase(s: &str) -> (r: String)
    ensures
        r@ == lowercase(s@),
        is_ascii_chars(s@) ==> r@ == s@.map_values(|c: char| lower(c)),
{
    s.to_lowercase()
}

/// Number of `"` at the start of `t`.
pub open spec fn lead_quotes(t: Seq<char>) -> nat
    decreases t.len(),
{
    if t.len() > 0 && t[0] == '"' {
        1 + lead_quotes(t.drop_first())
    } else {
        0
    }
}

/// Number of `"` at the end of `t`.
pub open spec fn trail_quotes(t: Seq<char>) -> nat
    decreases t.len(),
{
    if t.len() > 0 && t.last() == '"' {
        1 + trail_quotes(t.drop_last())
    } else {
        0
    }
}

/// `t` without the `"` at both ends (`str::trim_matches('"')`).
pub open spec fn trim_quotes(t: Seq<char>) -> Seq<char> {
    let u = t.skip(lead_quotes(t) as int);
    u.take(u.len() - trail_quotes(u))
}

/// The language that a lower-case name stands for.
pub open spec fn lang_of_name(n: Seq<char>) -> Option<Lang> {
    if n == seq!['z', 'h'] || n == seq!['z', 'h', '_', 'c', 'n'] || n == seq!['z', 'h', '_', 't', 'w']
        || n == seq!['z', 'h', '_', 'h', 'k'] || n == seq!['c', 'h', 'i', 'n', 'e', 's', 'e'] {
        Some(Lang::Zh)
    } else if n == seq!['e', 'n'] || n == seq!['e', 'n', '_', 'u', 's'] || n == seq!['e', 'n', '_', 'g', 'b']
        || n == seq!['e', 'n', 'g', 'l', 'i', 's', 'h'] {
        Some(Lang::En)
    } else {
        None
    }
}

/// `s` lower-cased as `str::to_lowercase` does it: ASCII text letter by
/// letter (`A`-`Z` to `a`-`z`), other text by `lowercase`.
pub open spec fn lowered(s: Seq<char>) -> Seq<char> {
    if is_ascii_chars(s) {
        s.map_values(|c: char| lower(c))
    } else {
        lowercase(s)
    }
}

/// The language named by `s`: lower-cased, stripped of surrounding `"`.
pub open spec fn spec_parse_lang(s: Seq<char>) -> Option<Lang> {
    lang_of_name(trim_quotes(lowered(s)))
}

fn trim_quotes_exec(t: &Vec<char>) -> (r: Vec<char>)
    ensures
        r@ == trim_quotes(t@),
{
    let mut a: usize = 0;
    assert(t@.skip(0) =~= t@);
    while a < t.len() && t[a] == '"'
        invariant
            a <= t.len(),
            lead_quotes(t@) == a + lead_quotes(t@.skip(a as int)),
        decreases t.len() - a,
    {
        assert(t@.skip(a as int).drop_first() =~= t@.skip(a + 1));
        a += 1;
    }
    let ghost u = t@.skip(a as int);
    let mut b: usize = t.len();
    assert(u.take(b - a) =~= u);
    while b > a && t[b - 1] == '"'
        invariant
            a <= b <= t.len(),
            u == t@.skip(a as int),
            trail_quotes(u) == (t.len() - b) + trail_quotes(u.take(b - a)),
        decreases b,
    {
        assert(u.take(b - a).drop_last() =~= u.take(b - a - 1));
        b -= 1;
    }
    let mut r: Vec<char> = Vec::new();
    let mut k = a;
    while k < b
        invariant
            a <= k <= b <= t.len(),
            r@ == t@.subrange(a as int, k as int),
        decreases b - k,
    {
        r.push(t[k]);
        k += 1;
        assert(r@ =~= t@.subrange(a as int, k as int));
    }
    assert(r@ =~= u.take(u.len() - trail_quotes(u)));
    r
}

impl Lang {
    /// The language that an already lower-cased name stands for, after
    /// stripping surrounding `"`: `zh`, `zh_cn`, `zh_tw`, `zh_hk` and
    /// `chinese` are Chinese; `en`, `en_us`, `en_gb` and `english` are English.
    pub fn parse_lowercased(lowered: &str) -> (r: Option<Lang>)
        ensures
            r == lang_of_name(trim_quotes(lowered@)),
    {
        let t = chars_of(lowered);
        let n = trim_quotes_exec(&t);
        let zh1: Vec<char> = vec!['z', 'h'];
        let zh2: Vec<char> = vec!['z', 'h', '_', 'c', 'n'];
        let zh3: Vec<char> = vec!['z', 'h', '_', 't', 'w'];
        let zh4: Vec<char> = vec!['z', 'h', '_', 'h', 'k'];
        let zh5: Vec<char> = vec!['c', 'h', 'i', 'n', 'e', 's', 'e'];
        let en1: Vec<char> = vec!['e', 'n'];
        let en2: Vec<char> = vec!['e', 'n', '_', 'u', 's'];
        let en3: Vec<char> = vec!['e', 'n', '_', 'g', 'b'];
        let en4: Vec<char> = vec!['e', 'n', 'g', 'l', 'i', 's', 'h'];
        if seq_eq(&n, &zh1) || seq_eq(&n, &zh2) || seq_eq(&n, &zh3) || seq_eq(&n, &zh4) || seq_eq(&n, &zh5) {
            Some(Lang::Zh)
        } else if seq_eq(&n, &en1) || seq_eq(&n, &en2) || seq_eq(&n, &en3) || seq_eq(&n, &en4) {
            Some(Lang::En)
        } else {
            None
        }
    }

    /// The language that `s` names, without regard to case and surrounding
    /// `"`; `None` for any other text.
    pub fn parse(s: &str) -> (r: Option<Lang>)
        ensures
            r == spec_parse_lang(s@),
    {
        let lowered = to_lowercase(s);
        Lang::parse_lowercased(lowered.as_str())
    }
}

/// The language chosen on a command line from position `i` on: the value
/// after the first `--lang`, or of the first `--lang=VALUE`, whichever comes
/// first; `None` when there is neither or the value names no language.
pub open spec fn lang_from_args_at(args: Seq<Seq<char>>, i: int) -> Option<Lang>
    decreases args.len() - i,
{
    if i < 0 || i >= args.len() {
        None
    } else if args[i] == lang_flag() {
        if i + 1 < args.len() {
            spec_parse_lang(args[i + 1])
        } else {
            None
        }
    } else if starts_with(args[i], lang_flag_eq()) {
        spec_parse_lang(args[i].skip(lang_flag_eq().len() as int))
    } else {
        lang_from_args_at(args, i + 1)
    }
}

pub open spec fn lang_flag() -> Seq<char> {
    seq!['-', '-', 'l', 'a', 'n', 'g']
}

pub open spec fn lang_flag_eq() -> Seq<char> {
    seq!['-', '-', 'l', 'a', 'n', 'g', '=']
}

pub open spec fn args_view(args: Seq<String>) -> Seq<Seq<char>> {
    args.map_values(|a: String| a@)
}

/// A `String` holding `t`.
fn string_of(t: &Vec<char>, from: usize) -> (s: String)
    requires
        from <= t.len(),
    ensures
        s@ == t@.skip(from as int),
{
    let mut s = String::new();
    let mut k = from;
    while k < t.len()
        invariant
            from <= k <= t.len(),
            s@ == t@.subrange(from as int, k as int),
        decreases t.len() - k,
    {
        crate::text::push_char(&mut s, t[k]);
        k += 1;
        assert(s@ =~= t@.subrange(from as int, k as int));
    }
    assert(t@.subrange(from as int, t.len() as int) =~= t@.skip(from as int));
    s
}

/// The language given by `--lang VALUE` or `--lang=VALUE` in the raw
/// command-line arguments, before the command line is parsed.
pub fn from_args(args: &[String]) -> (r: Option<Lang>)
    ensures
        r == lang_from_args_at(args_view(args@), 0),
{
    let ghost av = args_view(args@);
    let flag: Vec<char> = vec!['-', '-', 'l', 'a', 'n', 'g'];
    let flag_eq: Vec<char> = vec!['-', '-', 'l', 'a', 'n', 'g', '='];
    let mut i: usize = 0;
    while i < args.len()
        invariant
            i <= args.len(),
            av == args_view(args@),
            flag@ == lang_flag(),
            flag_eq@ == lang_flag_eq(),
            lang_from_args_at(av, 0) == lang_from_args_at(av, i as int),
        decreases args.len() - i,
    {
        let a = chars_of(args[i].as_str());
        assert(a@ == av[i as int]);
        if seq_eq(&a, &flag) {
            if i + 1 < args.len() {
                assert(av[i + 1] == args@[i + 1]@);
                return Lang::parse(args[i + 1].as_str());
            }
            return None;
        }
        if starts_with_exec(&a, &flag_eq) {
            let v = string_of(&a, 7);
            return Lang::parse(v.as_str());
        }
        i += 1;
    }
    None
}

/// The language that the environment asks for: `sqllog2db_lang` is the
/// value of `SQLLOG2DB_LANG` when set; `system` is the first of `LANG`,
/// `LC_ALL`, `LANGUAGE` that is set, or empty.  A valid `SQLLOG2DB_LANG`
/// wins; otherwise a system locale starting with `zh` (any case) gives
/// Chinese; otherwise English.
pub fn from_env_values(sqllog2db_lang: Option<&str>, system: &str) -> (r: Lang)
    ensures
        r == spec_from_env(
            match sqllog2db_lang {
                Some(v) => Some(v@),
                None => None,
            },
            system@,
        ),
{
    if let Some(v) = sqllog2db_lang {
        if let Some(l) = Lang::parse(v) {
            return l;
        }
    }
    let lowered = to_lowercase(system);
    let l = chars_of(lowered.as_str());
    let zh: Vec<char> = vec!['z', 'h'];
    if starts_with_exec(&l, &zh) {
        Lang::Zh
    } else {
        Lang::En
    }
}

pub open spec fn spec_from_env(sqllog2db_lang: Option<Seq<char>>, system: Seq<char>) -> Lang {
    match sqllog2db_lang {
        Some(v) if spec_parse_lang(v) is Some => spec_parse_lang(v)->0,
        _ => if starts_with(lowered(system), seq!['z', 'h']) {
            Lang::Zh
        } else {
            Lang::En
        },
    }
}

/// The effective language: the command-line flag when it names a language,
/// else `env_lang`, the language the environment asks for.
pub fn detect(args: &[String], env_lang: Lang) -> (r: Lang)
    ensures
        r == match lang_from_args_at(args_view(args@), 0) {
            Some(l) => l,
            None => env_lang,
        },
{
    match from_args(args) {
        Some(l) => l,
        None => env_lang,
    }
}

} // verus!
