//! SQL fingerprints and template keys.
//!
//! `fingerprint` replaces every literal of a statement by `?` and folds runs of
//! whitespace, so that statements that differ only in their literal values get
//! the same key.  `normalize_template` keeps literals, drops comments, folds
//! `IN (...)` lists to `IN (?)`, upper-cases SQL keywords and folds whitespace.
//!
//! Both scan the statement character by character.  Every character that the
//! scanners treat specially is ASCII, so scanning by characters gives the same
//! result as scanning the UTF-8 bytes.

use vstd::prelude::*;
use crate::text::{
    alnum_c, alpha_c, chars_of, digit_c, is_alnum, is_alpha, is_digit, is_ws, seq_eq,
    string_from_chars, upper, upper_c, ws_c,
};

verus! {

// ───────────────────────────── specification ─────────────────────────────

/// Identifier character: ASCII letter, digit, `_` or `.`.
pub open spec fn is_ident(c: char) -> bool {
    is_alnum(c) || c == '_' || c == '.'
}

/// The last character written so far is an identifier character.
pub open spec fn prev_ident(out: Seq<char>) -> bool {
    out.len() > 0 && is_ident(out.last())
}

/// Appends a single space unless the output already ends with one.
pub open spec fn push_space(out: Seq<char>) -> Seq<char> {
    if out.len() > 0 && out.last() == ' ' {
        out
    } else {
        out.push(' ')
    }
}

/// Position just after the single-quoted literal whose body starts at `j`:
/// the first `'` at or after `j` that is not doubled (`''` is an escaped
/// quote) closes it; an unclosed literal runs to the end of `s`.
pub open spec fn skip_quoted(s: Seq<char>, j: int) -> int
    decreases s.len() - j,
{
    if j >= s.len() {
        s.len() as int
    } else if s[j] == '\'' {
        if j + 1 < s.len() && s[j + 1] == '\'' {
            skip_quoted(s, j + 2)
        } else {
            j + 1
        }
    } else {
        skip_quoted(s, j + 1)
    }
}

/// Position of the first line feed at or after `j`, or the end of `s`: a
/// `--` comment runs to the end of its line, and the line feed that ends
/// it is left to separate the tokens on either side.
pub open spec fn line_end(s: Seq<char>, j: int) -> int
    decreases s.len() - j,
{
    if j >= s.len() {
        s.len() as int
    } else if s[j] == '\n' {
        j
    } else {
        line_end(s, j + 1)
    }
}

/// Position just after the first `*/` that starts at or after `j`, or the end of `s`.
pub open spec fn block_end(s: Seq<char>, j: int) -> int
    decreases s.len() - j,
{
    if j + 1 >= s.len() {
        s.len() as int
    } else if s[j] == '*' && s[j + 1] == '/' {
        j + 2
    } else {
        block_end(s, j + 1)
    }
}

/// End of the run of digits and `.` that starts at `j`.
pub open spec fn num_end(s: Seq<char>, j: int) -> int
    decreases s.len() - j,
{
    if j < s.len() && (is_digit(s[j]) || s[j] == '.') {
        num_end(s, j + 1)
    } else {
        j
    }
}

/// End of the run of ASCII whitespace that starts at `j`.
pub open spec fn ws_end(s: Seq<char>, j: int) -> int
    decreases s.len() - j,
{
    if j < s.len() && is_ws(s[j]) {
        ws_end(s, j + 1)
    } else {
        j
    }
}

/// End of the run of identifier characters that starts at `j`.
pub open spec fn ident_end(s: Seq<char>, j: int) -> int
    decreases s.len() - j,
{
    if j < s.len() && is_ident(s[j]) {
        ident_end(s, j + 1)
    } else {
        j
    }
}

/// ASCII upper-case form of a character sequence.
pub open spec fn upper_seq(w: Seq<char>) -> Seq<char> {
    w.map_values(|c: char| upper(c))
}

pub open spec fn is_keyword_upper(w: Seq<char>) -> bool {
    ||| w == seq!['S', 'E', 'L', 'E', 'C', 'T']
    ||| w == seq!['F', 'R', 'O', 'M']
    ||| w == seq!['W', 'H', 'E', 'R', 'E']
    ||| w == seq!['A', 'N', 'D']
    ||| w == seq!['O', 'R']
    ||| w == seq!['J', 'O', 'I', 'N']
    ||| w == seq!['O', 'N']
    ||| w == seq!['A', 'S']
    ||| w == seq!['I', 'N', 'S', 'E', 'R', 'T']
    ||| w == seq!['U', 'P', 'D', 'A', 'T', 'E']
    ||| w == seq!['D', 'E', 'L', 'E', 'T', 'E']
    ||| w == seq!['I', 'N', 'T', 'O']
    ||| w == seq!['V', 'A', 'L', 'U', 'E', 'S']
    ||| w == seq!['S', 'E', 'T']
    ||| w == seq!['G', 'R', 'O', 'U', 'P']
    ||| w == seq!['O', 'R', 'D', 'E', 'R']
    ||| w == seq!['B', 'Y']
    ||| w == seq!['H', 'A', 'V', 'I', 'N', 'G']
    ||| w == seq!['U', 'N', 'I', 'O', 'N']
    ||| w == seq!['D', 'I', 'S', 'T', 'I', 'N', 'C', 'T']
    ||| w == seq!['L', 'I', 'M', 'I', 'T']
    ||| w == seq!['C', 'R', 'E', 'A', 'T', 'E']
    ||| w == seq!['D', 'R', 'O', 'P']
    ||| w == seq!['A', 'L', 'T', 'E', 'R']
    ||| w == seq!['I', 'N']
    ||| w == seq!['N', 'O', 'T']
    ||| w == seq!['N', 'U', 'L', 'L']
    ||| w == seq!['I', 'S']
    ||| w == seq!['B', 'E', 'T', 'W', 'E', 'E', 'N']
    ||| w == seq!['L', 'I', 'K', 'E']
    ||| w == seq!['E', 'X', 'I', 'S', 'T', 'S']
    ||| w == seq!['C', 'A', 'S', 'E']
    ||| w == seq!['W', 'H', 'E', 'N']
    ||| w == seq!['T', 'H', 'E', 'N']
    ||| w == seq!['E', 'L', 'S', 'E']
    ||| w == seq!['E', 'N', 'D']
}

/// A SQL keyword, compared without regard to ASCII case.
pub open spec fn is_keyword(w: Seq<char>) -> bool {
    is_keyword_upper(upper_seq(w))
}

/// The word `IN`, without regard to case.
pub open spec fn is_in_word(w: Seq<char>) -> bool {
    upper_seq(w) == seq!['I', 'N']
}

/// Position just after the `)` that closes a parenthesis, scanning from `j`
/// with `d` parentheses still open; single-quoted literals are skipped.
/// `None` when the input ends first.
pub open spec fn paren_end(s: Seq<char>, j: int, d: nat) -> Option<int>
    decreases s.len() - j,
{
    if d == 0 {
        Some(j)
    } else if j < 0 || j >= s.len() {
        None
    } else if s[j] == '(' {
        paren_end(s, j + 1, d + 1)
    } else if s[j] == ')' {
        paren_end(s, j + 1, (d - 1) as nat)
    } else if s[j] == '\'' {
        let k = skip_quoted(s, j + 1);
        if k <= j || k > s.len() {
            None
        } else {
            paren_end(s, k, d)
        }
    } else {
        paren_end(s, j + 1, d)
    }
}

/// The text from `i` on holds a word `SELECT` or `FROM` (any case) outside
/// single-quoted literals; a word starts with an ASCII letter and runs over
/// identifier characters.
pub open spec fn has_subquery_from(t: Seq<char>, i: int) -> bool
    decreases t.len() - i,
{
    if i < 0 || i >= t.len() {
        false
    } else if is_alpha(t[i]) {
        let k = ident_end(t, i);
        let w = t.subrange(i, k);
        if upper_seq(w) == seq!['S', 'E', 'L', 'E', 'C', 'T'] || upper_seq(w) == seq!['F', 'R', 'O', 'M'] {
            true
        } else if k <= i || k > t.len() {
            false
        } else {
            has_subquery_from(t, k)
        }
    } else if t[i] == '\'' {
        let k = skip_quoted(t, i + 1);
        if k <= i || k > t.len() {
            false
        } else {
            has_subquery_from(t, k)
        }
    } else {
        has_subquery_from(t, i + 1)
    }
}

/// The parenthesised list after an `IN` that ends at `j`, if it can be folded
/// to `(?)`: whitespace, then `(`, a balanced list, and no sub-query inside.
/// The result is the position just after the closing `)`.
pub open spec fn fold_in_list(s: Seq<char>, j: int) -> Option<int> {
    let p = ws_end(s, j);
    if p >= s.len() || s[p] != '(' {
        None
    } else {
        match paren_end(s, p + 1, 1) {
            None => None,
            Some(q) => if has_subquery_from(s.subrange(p + 1, q - 1), 0) {
                None
            } else {
                Some(q)
            },
        }
    }
}

/// One word of the template scan, starting at `i` with an ASCII letter.
pub open spec fn word_step(s: Seq<char>, i: int, out: Seq<char>) -> (int, Seq<char>) {
    let j = ident_end(s, i);
    let w = s.subrange(i, j);
    if prev_ident(out) {
        (j, out + w)
    } else if is_keyword(w) {
        let o = out + upper_seq(w);
        if is_in_word(w) {
            match fold_in_list(s, j) {
                Some(k) => (k, o + seq![' ', '(', '?', ')']),
                None => (j, o),
            }
        } else {
            (j, o)
        }
    } else {
        (j, out + w)
    }
}

/// One step of the scan at position `i`, with `out` written so far: the
/// position where the scan goes on and the output after the step.
/// `norm` selects the template scan; otherwise it is the fingerprint scan.
pub open spec fn step(s: Seq<char>, i: int, out: Seq<char>, norm: bool) -> (int, Seq<char>) {
    let c = s[i];
    if c == '\'' {
        let j = skip_quoted(s, i + 1);
        (j, if norm { out + s.subrange(i, j) } else { out.push('?') })
    } else if norm && c == '-' && i + 1 < s.len() && s[i + 1] == '-' {
        (line_end(s, i), out)
    } else if norm && c == '/' && i + 1 < s.len() && s[i + 1] == '*' {
        (block_end(s, i + 2), push_space(out))
    } else if !norm && is_digit(c) && !prev_ident(out) {
        (num_end(s, i + 1), out.push('?'))
    } else if is_ws(c) {
        (ws_end(s, i + 1), push_space(out))
    } else if norm && is_alpha(c) {
        word_step(s, i, out)
    } else {
        (i + 1, out.push(c))
    }
}

/// The output of the scan from position `i`, with `out` written so far.
pub open spec fn scan(s: Seq<char>, i: int, out: Seq<char>, norm: bool) -> Seq<char>
    decreases s.len() - i,
{
    if i < 0 || i >= s.len() {
        out
    } else {
        let (j, o) = step(s, i, out, norm);
        if j <= i || j > s.len() {
            o
        } else {
            scan(s, j, o, norm)
        }
    }
}

/// Number of ASCII whitespace characters at the start of `t`.
pub open spec fn lead_ws(t: Seq<char>) -> nat
    decreases t.len(),
{
    if t.len() > 0 && is_ws(t[0]) {
        1 + lead_ws(t.drop_first())
    } else {
        0
    }
}

/// Number of ASCII whitespace characters at the end of `t`.
pub open spec fn trail_ws(t: Seq<char>) -> nat
    decreases t.len(),
{
    if t.len() > 0 && is_ws(t.last()) {
        1 + trail_ws(t.drop_last())
    } else {
        0
    }
}

/// `t` without leading and trailing ASCII whitespace (`str::trim_ascii`).
pub open spec fn trim_ascii(t: Seq<char>) -> Seq<char> {
    let u = t.skip(lead_ws(t) as int);
    u.take(u.len() - trail_ws(u))
}

/// The fingerprint of a statement.
pub open spec fn spec_fingerprint(s: Seq<char>) -> Seq<char> {
    trim_ascii(scan(s, 0, seq![], false))
}

/// The template key of a statement.
pub open spec fn spec_normalize_template(s: Seq<char>) -> Seq<char> {
    trim_ascii(scan(s, 0, seq![], true))
}

} // verus!

verus! {

// ───────────────────────────── implementation ─────────────────────────────

fn is_ident_c(c: char) -> (b: bool)
    ensures
        b == is_ident(c),
{
    alnum_c(c) || c == '_' || c == '.'
}

fn prev_is_ident(out: &Vec<char>) -> (b: bool)
    ensures
        b == prev_ident(out@),
{
    out.len() > 0 && is_ident_c(out[out.len() - 1])
}

fn push_space_exec(out: &mut Vec<char>)
    ensures
        final(out)@ == push_space(old(out)@),
{
    if !(out.len() > 0 && out[out.len() - 1] == ' ') {
        out.push(' ');
    }
}

/// Appends `s[from..to]` to `out`.
fn extend_range(out: &mut Vec<char>, s: &Vec<char>, from: usize, to: usize)
    requires
        from <= to <= s.len(),
    ensures
        final(out)@ == old(out)@ + s@.subrange(from as int, to as int),
{
    let mut k = from;
    while k < to
        invariant
            from <= k <= to <= s.len(),
            out@ == old(out)@ + s@.subrange(from as int, k as int),
        decreases to - k,
    {
        out.push(s[k]);
        k += 1;
        assert(out@ =~= old(out)@ + s@.subrange(from as int, k as int));
    }
}

/// Appends the ASCII upper-case form of `s[from..to]` to `out`.
fn extend_upper(out: &mut Vec<char>, s: &Vec<char>, from: usize, to: usize)
    requires
        from <= to <= s.len(),
    ensures
        final(out)@ == old(out)@ + upper_seq(s@.subrange(from as int, to as int)),
{
    let mut k = from;
    while k < to
        invariant
            from <= k <= to <= s.len(),
            out@ == old(out)@ + upper_seq(s@.subrange(from as int, k as int)),
        decreases to - k,
    {
        let u = upper_c(s[k]);
        out.push(u);
        k += 1;
        assert(out@ =~= old(out)@ + upper_seq(s@.subrange(from as int, k as int)));
    }
}

/// A copy of `s[from..to]`.
fn copy_range(s: &Vec<char>, from: usize, to: usize) -> (r: Vec<char>)
    requires
        from <= to <= s.len(),
    ensures
        r@ == s@.subrange(from as int, to as int),
{
    let mut r: Vec<char> = Vec::new();
    extend_range(&mut r, s, from, to);
    assert(r@ =~= s@.subrange(from as int, to as int));
    r
}

fn skip_quoted_exec(s: &Vec<char>, j0: usize) -> (k: usize)
    requires
        j0 <= s.len(),
    ensures
        k == skip_quoted(s@, j0 as int),
        j0 <= k <= s.len(),
{
    let mut j = j0;
    loop
        invariant
            j0 <= j <= s.len(),
            skip_quoted(s@, j0 as int) == skip_quoted(s@, j as int),
        decreases s.len() - j,
    {
        if j >= s.len() {
            return s.len();
        }
        if s[j] == '\'' {
            if j + 1 < s.len() && s[j + 1] == '\'' {
                j = j + 2;
            } else {
                return j + 1;
            }
        } else {
            j = j + 1;
        }
    }
}

fn line_end_exec(s: &Vec<char>, j0: usize) -> (k: usize)
    requires
        j0 <= s.len(),
    ensures
        k == line_end(s@, j0 as int),
        j0 <= k <= s.len(),
        j0 < s.len() && s@[j0 as int] != '\n' ==> j0 < k,
{
    let mut j = j0;
    while j < s.len() && s[j] != '\n'
        invariant
            j0 <= j <= s.len(),
            line_end(s@, j0 as int) == line_end(s@, j as int),
        decreases s.len() - j,
    {
        j += 1;
    }
    j
}

fn block_end_exec(s: &Vec<char>, j0: usize) -> (k: usize)
    requires
        j0 <= s.len(),
    ensures
        k == block_end(s@, j0 as int),
        j0 <= k <= s.len(),
{
    let mut j = j0;
    loop
        invariant
            j0 <= j <= s.len(),
            block_end(s@, j0 as int) == block_end(s@, j as int),
        decreases s.len() - j,
    {
        if s.len() - j <= 1 {
            return s.len();
        }
        if s[j] == '*' && s[j + 1] == '/' {
            return j + 2;
        }
        j += 1;
    }
}

fn num_end_exec(s: &Vec<char>, j0: usize) -> (k: usize)
    requires
        j0 <= s.len(),
    ensures
        k == num_end(s@, j0 as int),
        j0 <= k <= s.len(),
{
    let mut j = j0;
    while j < s.len() && (digit_c(s[j]) || s[j] == '.')
        invariant
            j0 <= j <= s.len(),
            num_end(s@, j0 as int) == num_end(s@, j as int),
        decreases s.len() - j,
    {
        j += 1;
    }
    j
}

fn ws_end_exec(s: &Vec<char>, j0: usize) -> (k: usize)
    requires
        j0 <= s.len(),
    ensures
        k == ws_end(s@, j0 as int),
        j0 <= k <= s.len(),
{
    let mut j = j0;
    while j < s.len() && ws_c(s[j])
        invariant
            j0 <= j <= s.len(),
            ws_end(s@, j0 as int) == ws_end(s@, j as int),
        decreases s.len() - j,
    {
        j += 1;
    }
    j
}

fn ident_end_exec(s: &Vec<char>, j0: usize) -> (k: usize)
    requires
        j0 <= s.len(),
    ensures
        k == ident_end(s@, j0 as int),
        j0 <= k <= s.len(),
        j0 < s.len() && is_ident(s@[j0 as int]) ==> j0 < k,
{
    let mut j = j0;
    while j < s.len() && is_ident_c(s[j])
        invariant
            j0 <= j <= s.len(),
            ident_end(s@, j0 as int) == ident_end(s@, j as int),
        decreases s.len() - j,
    {
        j += 1;
    }
    j
}

fn is_keyword_upper_exec(w: &Vec<char>) -> (r: bool)
    ensures
        r == is_keyword_upper(w@),
{
    let k: Vec<char> = vec!['S', 'E', 'L', 'E', 'C', 'T'];
    if seq_eq(w, &k) {
        return true;
    }
    let k: Vec<char> = vec!['F', 'R', 'O', 'M'];
    if seq_eq(w, &k) {
        return true;
    }
    let k: Vec<char> = vec!['W', 'H', 'E', 'R', 'E'];
    if seq_eq(w, &k) {
        return true;
    }
    let k: Vec<char> = vec!['A', 'N', 'D'];
    if seq_eq(w, &k) {
        return true;
    }
    let k: Vec<char> = vec!['O', 'R'];
    if seq_eq(w, &k) {
        return true;
    }
    let k: Vec<char> = vec!['J', 'O', 'I', 'N'];
    if seq_eq(w, &k) {
        return true;
    }
    let k: Vec<char> = vec!['O', 'N'];
    if seq_eq(w, &k) {
        return true;
    }
    let k: Vec<char> = vec!['A', 'S'];
    if seq_eq(w, &k) {
        return true;
    }
    let k: Vec<char> = vec!['I', 'N', 'S', 'E', 'R', 'T'];
    if seq_eq(w, &k) {
        return true;
    }
    let k: Vec<char> = vec!['U', 'P', 'D', 'A', 'T', 'E'];
    if seq_eq(w, &k) {
        return true;
    }
    let k: Vec<char> = vec!['D', 'E', 'L', 'E', 'T', 'E'];
    if seq_eq(w, &k) {
        return true;
    }
    let k: Vec<char> = vec!['I', 'N', 'T', 'O'];
    if seq_eq(w, &k) {
        return true;
    }
    let k: Vec<char> = vec!['V', 'A', 'L', 'U', 'E', 'S'];
    if seq_eq(w, &k) {
        return true;
    }
    let k: Vec<char> = vec!['S', 'E', 'T'];
    if seq_eq(w, &k) {
        return true;
    }
    let k: Vec<char> = vec!['G', 'R', 'O', 'U', 'P'];
    if seq_eq(w, &k) {
        return true;
    }
    let k: Vec<char> = vec!['O', 'R', 'D', 'E', 'R'];
    if seq_eq(w, &k) {
        return true;
    }
    let k: Vec<char> = vec!['B', 'Y'];
    if seq_eq(w, &k) {
        return true;
    }
    let k: Vec<char> = vec!['H', 'A', 'V', 'I', 'N', 'G'];
    if seq_eq(w, &k) {
        return true;
    }
    let k: Vec<char> = vec!['U', 'N', 'I', 'O', 'N'];
    if seq_eq(w, &k) {
        return true;
    }
    let k: Vec<char> = vec!['D', 'I', 'S', 'T', 'I', 'N', 'C', 'T'];
    if seq_eq(w, &k) {
        return true;
    }
    let k: Vec<char> = vec!['L', 'I', 'M', 'I', 'T'];
    if seq_eq(w, &k) {
        return true;
    }
    let k: Vec<char> = vec!['C', 'R', 'E', 'A', 'T', 'E'];
    if seq_eq(w, &k) {
        return true;
    }
    let k: Vec<char> = vec!['D', 'R', 'O', 'P'];
    if seq_eq(w, &k) {
        return true;
    }
    let k: Vec<char> = vec!['A', 'L', 'T', 'E', 'R'];
    if seq_eq(w, &k) {
        return true;
    }
    let k: Vec<char> = vec!['I', 'N'];
    if seq_eq(w, &k) {
        return true;
    }
    let k: Vec<char> = vec!['N', 'O', 'T'];
    if seq_eq(w, &k) {
        return true;
    }
    let k: Vec<char> = vec!['N', 'U', 'L', 'L'];
    if seq_eq(w, &k) {
        return true;
    }
    let k: Vec<char> = vec!['I', 'S'];
    if seq_eq(w, &k) {
        return true;
    }
    let k: Vec<char> = vec!['B', 'E', 'T', 'W', 'E', 'E', 'N'];
    if seq_eq(w, &k) {
        return true;
    }
    let k: Vec<char> = vec!['L', 'I', 'K', 'E'];
    if seq_eq(w, &k) {
        return true;
    }
    let k: Vec<char> = vec!['E', 'X', 'I', 'S', 'T', 'S'];
    if seq_eq(w, &k) {
        return true;
    }
    let k: Vec<char> = vec!['C', 'A', 'S', 'E'];
    if seq_eq(w, &k) {
        return true;
    }
    let k: Vec<char> = vec!['W', 'H', 'E', 'N'];
    if seq_eq(w, &k) {
        return true;
    }
    let k: Vec<char> = vec!['T', 'H', 'E', 'N'];
    if seq_eq(w, &k) {
        return true;
    }
    let k: Vec<char> = vec!['E', 'L', 'S', 'E'];
    if seq_eq(w, &k) {
        return true;
    }
    let k: Vec<char> = vec!['E', 'N', 'D'];
    if seq_eq(w, &k) {
        return true;
    }
    false
}

/// Whether `w` is a SQL keyword, without regard to ASCII case.
fn is_keyword_exec(w: &Vec<char>) -> (r: bool)
    ensures
        r == is_keyword(w@),
{
    let mut u: Vec<char> = Vec::new();
    extend_upper(&mut u, w, 0, w.len());
    assert(w@.subrange(0, w@.len() as int) =~= w@);
    assert(u@ =~= upper_seq(w@));
    is_keyword_upper_exec(&u)
}

fn upper_eq(w: &Vec<char>, target: &Vec<char>) -> (r: bool)
    ensures
        r == (upper_seq(w@) == target@),
{
    let mut u: Vec<char> = Vec::new();
    extend_upper(&mut u, w, 0, w.len());
    assert(w@.subrange(0, w@.len() as int) =~= w@);
    assert(u@ =~= upper_seq(w@));
    seq_eq(&u, target)
}

fn paren_end_exec(s: &Vec<char>, j0: usize) -> (r: Option<usize>)
    requires
        1 <= j0 <= s.len(),
    ensures
        match r {
            Some(k) => paren_end(s@, j0 as int, 1) == Some(k as int) && j0 < k <= s.len(),
            None => paren_end(s@, j0 as int, 1) is None,
        },
{
    let mut j = j0;
    let mut depth: usize = 1;
    while j < s.len() && depth > 0
        invariant
            1 <= j0 <= j <= s.len(),
            depth <= j - j0 + 1,
            depth == 0 ==> j > j0,
            paren_end(s@, j0 as int, 1) == paren_end(s@, j as int, depth as nat),
        decreases s.len() - j,
    {
        if s[j] == '(' {
            depth += 1;
            j += 1;
        } else if s[j] == ')' {
            depth -= 1;
            j += 1;
        } else if s[j] == '\'' {
            j = skip_quoted_exec(s, j + 1);
        } else {
            j += 1;
        }
    }
    if depth != 0 {
        None
    } else {
        Some(j)
    }
}

/// Whether `t` holds a word `SELECT` or `FROM` outside single-quoted literals.
fn is_subquery(t: &Vec<char>) -> (r: bool)
    ensures
        r == has_subquery_from(t@, 0),
{
    let select: Vec<char> = vec!['S', 'E', 'L', 'E', 'C', 'T'];
    let from: Vec<char> = vec!['F', 'R', 'O', 'M'];
    let mut i: usize = 0;
    while i < t.len()
        invariant
            i <= t.len(),
            select@ == seq!['S', 'E', 'L', 'E', 'C', 'T'],
            from@ == seq!['F', 'R', 'O', 'M'],
            has_subquery_from(t@, 0) == has_subquery_from(t@, i as int),
        decreases t.len() - i,
    {
        if alpha_c(t[i]) {
            let k = ident_end_exec(t, i);
            let w = copy_range(t, i, k);
            if upper_eq(&w, &select) || upper_eq(&w, &from) {
                return true;
            }
            i = k;
        } else if t[i] == '\'' {
            i = skip_quoted_exec(t, i + 1);
        } else {
            i += 1;
        }
    }
    false
}

fn try_fold_in_list(s: &Vec<char>, j: usize) -> (r: Option<usize>)
    requires
        j <= s.len(),
    ensures
        match r {
            Some(k) => fold_in_list(s@, j as int) == Some(k as int) && j < k <= s.len(),
            None => fold_in_list(s@, j as int) is None,
        },
{
    let p = ws_end_exec(s, j);
    if p >= s.len() || s[p] != '(' {
        return None;
    }
    match paren_end_exec(s, p + 1) {
        None => None,
        Some(q) => {
            let inner = copy_range(s, p + 1, q - 1);
            if is_subquery(&inner) {
                None
            } else {
                Some(q)
            }
        },
    }
}

fn handle_word(s: &Vec<char>, i: usize, out: &mut Vec<char>) -> (j: usize)
    requires
        i < s.len(),
        is_alpha(s@[i as int]),
    ensures
        word_step(s@, i as int, old(out)@) == (j as int, final(out)@),
        i < j <= s.len(),
{
    let j = ident_end_exec(s, i);
    let w = copy_range(s, i, j);
    if prev_is_ident(out) {
        extend_range(out, s, i, j);
        return j;
    }
    if is_keyword_exec(&w) {
        extend_upper(out, s, i, j);
        let in_word: Vec<char> = vec!['I', 'N'];
        if upper_eq(&w, &in_word) {
            if let Some(k) = try_fold_in_list(s, j) {
                out.push(' ');
                out.push('(');
                out.push('?');
                out.push(')');
                proof {
                    let o = old(out)@ + upper_seq(s@.subrange(i as int, j as int));
                    assert(out@ =~= o + seq![' ', '(', '?', ')']);
                }
                return k;
            }
        }
        j
    } else {
        extend_range(out, s, i, j);
        j
    }
}

fn dispatch(s: &Vec<char>, i: usize, out: &mut Vec<char>, norm: bool) -> (j: usize)
    requires
        i < s.len(),
    ensures
        step(s@, i as int, old(out)@, norm) == (j as int, final(out)@),
        i < j <= s.len(),
{
    let c = s[i];
    if c == '\'' {
        let j = skip_quoted_exec(s, i + 1);
        if norm {
            extend_range(out, s, i, j);
        } else {
            out.push('?');
        }
        j
    } else if norm && c == '-' && i + 1 < s.len() && s[i + 1] == '-' {
        let j = line_end_exec(s, i);
        proof {
            // the character at `i` is not a line feed
            reveal_with_fuel(line_end, 2);
        }
        j
    } else if norm && c == '/' && i + 1 < s.len() && s[i + 1] == '*' {
        let j = block_end_exec(s, i + 2);
        push_space_exec(out);
        j
    } else if !norm && digit_c(c) && !prev_is_ident(out) {
        out.push('?');
        num_end_exec(s, i + 1)
    } else if ws_c(c) {
        push_space_exec(out);
        ws_end_exec(s, i + 1)
    } else if norm && alpha_c(c) {
        handle_word(s, i, out)
    } else {
        out.push(c);
        i + 1
    }
}

/// Whether the character needs more than a plain copy in the given scan.
fn needs_dispatch(c: char, norm: bool) -> (b: bool)
    ensures
        b == (c == '\'' || is_ws(c) || c == '\x0B' || is_digit(c) || c == '-' || c == '/' || (norm && is_alpha(c))),
{
    c == '\'' || ws_c(c) || c == '\x0B' || digit_c(c) || c == '-' || c == '/' || (norm && alpha_c(c))
}

fn scan_exec(s: &Vec<char>, norm: bool) -> (out: Vec<char>)
    ensures
        out@ == scan(s@, 0, seq![], norm),
{
    let mut out: Vec<char> = Vec::new();
    let mut i: usize = 0;
    while i < s.len()
        invariant
            i <= s.len(),
            scan(s@, 0, seq![], norm) == scan(s@, i as int, out@, norm),
        decreases s.len() - i,
    {
        let ghost i0 = i;
        // plain characters are copied as they are
        while i < s.len() && !needs_dispatch(s[i], norm)
            invariant
                i0 <= i <= s.len(),
                scan(s@, 0, seq![], norm) == scan(s@, i as int, out@, norm),
            decreases s.len() - i,
        {
            out.push(s[i]);
            i += 1;
        }
        if i < s.len() {
            i = dispatch(s, i, &mut out, norm);
        }
    }
    out
}

fn trim_exec(t: &Vec<char>) -> (r: Vec<char>)
    ensures
        r@ == trim_ascii(t@),
{
    let mut a: usize = 0;
    assert(t@.skip(0) =~= t@);
    while a < t.len() && ws_c(t[a])
        invariant
            a <= t.len(),
            lead_ws(t@) == a + lead_ws(t@.skip(a as int)),
        decreases t.len() - a,
    {
        assert(t@.skip(a as int).drop_first() =~= t@.skip(a + 1));
        a += 1;
    }
    assert(lead_ws(t@.skip(a as int)) == 0);
    let ghost u = t@.skip(a as int);
    let mut b: usize = t.len();
    assert(u.take(b - a) =~= u);
    while b > a && ws_c(t[b - 1])
        invariant
            a <= b <= t.len(),
            u == t@.skip(a as int),
            trail_ws(u) == (t.len() - b) + trail_ws(u.take(b - a)),
        decreases b,
    {
        assert(u.take(b - a).drop_last() =~= u.take(b - a - 1));
        b -= 1;
    }
    assert(trail_ws(u.take(b - a)) == 0);
    let r = copy_range(t, a, b);
    assert(r@ =~= u.take(u.len() - trail_ws(u)));
    r
}

/// The fingerprint of a SQL statement: single-quoted literals and numbers
/// that do not continue an identifier become `?`, runs of ASCII whitespace
/// become one space, and the result is trimmed.
pub fn fingerprint(sql: &str) -> (r: String)
    ensures
        r@ == spec_fingerprint(sql@),
{
    scan_sql_chars(sql, false)
}

/// The template key of a SQL statement: comments are dropped (a block
/// comment leaves a space, a line comment its line feed, which then counts
/// as whitespace), `IN (...)` lists without sub-query become
/// `IN (?)`, keywords are upper-cased, runs of ASCII whitespace become one
/// space, literals are kept, and the result is trimmed.
pub fn normalize_template(sql: &str) -> (r: String)
    ensures
        r@ == spec_normalize_template(sql@),
{
    scan_sql_chars(sql, true)
}

fn scan_sql_chars(sql: &str, norm: bool) -> (r: String)
    ensures
        r@ == trim_ascii(scan(sql@, 0, seq![], norm)),
{
    let s = chars_of(sql);
    let out = scan_exec(&s, norm);
    let t = trim_exec(&out);
    string_from_chars(&t)
}

} // verus!

verus! {

// ───────────────────────────── laws ─────────────────────────────

/// The shape that every fingerprint has: no quote character, no whitespace
/// but single spaces.
pub open spec fn folded(t: Seq<char>) -> bool {
    &&& forall|k: int| 0 <= k < t.len() ==> #[trigger] t[k] != '\''
    &&& forall|k: int| 0 <= k < t.len() && is_ws(#[trigger] t[k]) ==> t[k] == ' '
    &&& forall|k: int| 0 <= k < t.len() - 1 ==> !(#[trigger] t[k] == ' ' && t[k + 1] == ' ')
}

proof fn lemma_folded_push(t: Seq<char>, c: char)
    requires
        folded(t),
        c != '\'',
        is_ws(c) ==> c == ' ',
        c == ' ' ==> !(t.len() > 0 && t.last() == ' '),
    ensures
        folded(t.push(c)),
{
    let u = t.push(c);
    assert forall|k: int| 0 <= k < u.len() - 1 implies !(#[trigger] u[k] == ' ' && u[k + 1] == ' ') by {
        if k < t.len() - 1 {
            assert(u[k] == t[k] && u[k + 1] == t[k + 1]);
        }
    }
    assert forall|k: int| 0 <= k < u.len() implies #[trigger] u[k] != '\'' by {
        if k < t.len() {
            assert(u[k] == t[k]);
        }
    }
    assert forall|k: int| 0 <= k < u.len() && is_ws(#[trigger] u[k]) implies u[k] == ' ' by {
        if k < t.len() {
            assert(u[k] == t[k]);
        }
    }
}

proof fn lemma_folded_step(s: Seq<char>, i: int, out: Seq<char>)
    requires
        0 <= i < s.len(),
        folded(out),
    ensures
        folded(step(s, i, out, false).1),
{
    let c = s[i];
    if c == '\'' {
        lemma_folded_push(out, '?');
    } else if is_digit(c) && !prev_ident(out) {
        lemma_folded_push(out, '?');
    } else if is_ws(c) {
        if !(out.len() > 0 && out.last() == ' ') {
            lemma_folded_push(out, ' ');
        }
    } else {
        lemma_folded_push(out, c);
    }
}

proof fn lemma_folded_scan(s: Seq<char>, i: int, out: Seq<char>)
    requires
        folded(out),
    ensures
        folded(scan(s, i, out, false)),
    decreases s.len() - i,
{
    if 0 <= i < s.len() {
        let (j, o) = step(s, i, out, false);
        lemma_folded_step(s, i, out);
        if !(j <= i || j > s.len()) {
            lemma_folded_scan(s, j, o);
        }
    }
}

proof fn lemma_folded_subrange(t: Seq<char>, a: int, b: int)
    requires
        folded(t),
        0 <= a <= b <= t.len(),
    ensures
        folded(t.subrange(a, b)),
{
    let u = t.subrange(a, b);
    assert forall|k: int| 0 <= k < u.len() - 1 implies !(#[trigger] u[k] == ' ' && u[k + 1] == ' ') by {
        assert(u[k] == t[a + k] && u[k + 1] == t[a + k + 1]);
    }
    assert forall|k: int| 0 <= k < u.len() implies #[trigger] u[k] != '\'' by {
        assert(u[k] == t[a + k]);
    }
    assert forall|k: int| 0 <= k < u.len() && is_ws(#[trigger] u[k]) implies u[k] == ' ' by {
        assert(u[k] == t[a + k]);
    }
}

proof fn lemma_lead_ws(t: Seq<char>)
    ensures
        lead_ws(t) <= t.len(),
        lead_ws(t) < t.len() ==> !is_ws(t[lead_ws(t) as int]),
    decreases t.len(),
{
    if t.len() > 0 && is_ws(t[0]) {
        lemma_lead_ws(t.drop_first());
        if lead_ws(t) < t.len() {
            assert(t[lead_ws(t) as int] == t.drop_first()[lead_ws(t.drop_first()) as int]);
        }
    }
}

proof fn lemma_trail_ws(t: Seq<char>)
    ensures
        trail_ws(t) <= t.len(),
        trail_ws(t) < t.len() ==> !is_ws(t[t.len() - trail_ws(t) - 1]),
    decreases t.len(),
{
    if t.len() > 0 && is_ws(t.last()) {
        lemma_trail_ws(t.drop_last());
    }
}

/// Law: a fingerprint holds no quote character, no ASCII whitespace other
/// than single spaces, and neither starts nor ends with whitespace.
pub proof fn lemma_fingerprint_folded(sql: Seq<char>)
    ensures
        folded(spec_fingerprint(sql)),
        spec_fingerprint(sql).len() > 0 ==> !is_ws(spec_fingerprint(sql)[0]) && !is_ws(
            spec_fingerprint(sql).last(),
        ),
{
    let t = scan(sql, 0, seq![], false);
    assert(folded(Seq::<char>::empty()));
    lemma_folded_scan(sql, 0, seq![]);
    lemma_lead_ws(t);
    let a = lead_ws(t) as int;
    let u = t.skip(a);
    lemma_trail_ws(u);
    let b = u.len() - trail_ws(u);
    assert(u =~= t.subrange(a, t.len() as int));
    let f = u.take(b);
    assert(f =~= t.subrange(a, a + b));
    lemma_folded_subrange(t, a, a + b);
    if f.len() > 0 {
        assert(f[0] == t[a]);
        assert(f.last() == u[b - 1]);
    }
}


// ─────────────────────── literals do not change a fingerprint ───────────────────────

/// `t` from `i + d` on is `s` from `i` on.
pub open spec fn same_tail(s: Seq<char>, t: Seq<char>, i: int, d: int) -> bool {
    &&& 0 <= i
    &&& 0 <= i + d
    &&& t.len() == s.len() + d
    &&& forall|p: int| i <= p < s.len() ==> #[trigger] s[p] == t[p + d]
}

proof fn lemma_skip_quoted_shift(s: Seq<char>, t: Seq<char>, i: int, d: int, j: int)
    requires
        same_tail(s, t, i, d),
        i <= j,
    ensures
        skip_quoted(t, j + d) == skip_quoted(s, j) + d,
    decreases s.len() - j,
{
    if j < s.len() {
        assert(s[j] == t[j + d]);
        if j + 1 < s.len() {
            assert(s[j + 1] == t[j + 1 + d]);
        }
        if s[j] == '\'' {
            if j + 1 < s.len() && s[j + 1] == '\'' {
                lemma_skip_quoted_shift(s, t, i, d, j + 2);
                assert(j + 2 + d == (j + d) + 2);
            }
        } else {
            lemma_skip_quoted_shift(s, t, i, d, j + 1);
            assert(j + 1 + d == (j + d) + 1);
        }
    }
}

proof fn lemma_num_end_shift(s: Seq<char>, t: Seq<char>, i: int, d: int, j: int)
    requires
        same_tail(s, t, i, d),
        i <= j,
    ensures
        num_end(t, j + d) == num_end(s, j) + d,
    decreases s.len() - j,
{
    if j < s.len() {
        assert(s[j] == t[j + d]);
        if is_digit(s[j]) || s[j] == '.' {
            lemma_num_end_shift(s, t, i, d, j + 1);
            assert(j + 1 + d == (j + d) + 1);
        }
    }
}

proof fn lemma_ws_end_shift(s: Seq<char>, t: Seq<char>, i: int, d: int, j: int)
    requires
        same_tail(s, t, i, d),
        i <= j,
    ensures
        ws_end(t, j + d) == ws_end(s, j) + d,
    decreases s.len() - j,
{
    if j < s.len() {
        assert(s[j] == t[j + d]);
        if is_ws(s[j]) {
            lemma_ws_end_shift(s, t, i, d, j + 1);
            assert(j + 1 + d == (j + d) + 1);
        }
    }
}

proof fn lemma_line_end_shift(s: Seq<char>, t: Seq<char>, i: int, d: int, j: int)
    requires
        same_tail(s, t, i, d),
        i <= j,
    ensures
        line_end(t, j + d) == line_end(s, j) + d,
    decreases s.len() - j,
{
    if j < s.len() {
        assert(s[j] == t[j + d]);
        if s[j] != '\n' {
            lemma_line_end_shift(s, t, i, d, j + 1);
            assert(j + 1 + d == (j + d) + 1);
        }
    }
}

proof fn lemma_block_end_shift(s: Seq<char>, t: Seq<char>, i: int, d: int, j: int)
    requires
        same_tail(s, t, i, d),
        i <= j,
    ensures
        block_end(t, j + d) == block_end(s, j) + d,
    decreases s.len() - j,
{
    if j + 1 < s.len() {
        assert(s[j] == t[j + d]);
        assert(s[j + 1] == t[j + 1 + d]);
        if !(s[j] == '*' && s[j + 1] == '/') {
            lemma_block_end_shift(s, t, i, d, j + 1);
            assert(j + 1 + d == (j + d) + 1);
        }
    }
}

proof fn lemma_ident_end_shift(s: Seq<char>, t: Seq<char>, i: int, d: int, j: int)
    requires
        same_tail(s, t, i, d),
        i <= j,
    ensures
        ident_end(t, j + d) == ident_end(s, j) + d,
    decreases s.len() - j,
{
    if j < s.len() {
        assert(s[j] == t[j + d]);
        if is_ident(s[j]) {
            lemma_ident_end_shift(s, t, i, d, j + 1);
            assert(j + 1 + d == (j + d) + 1);
        }
    }
}

proof fn lemma_ident_end_ge(s: Seq<char>, j: int)
    requires
        0 <= j <= s.len(),
    ensures
        j <= ident_end(s, j) <= s.len(),
    decreases s.len() - j,
{
    if j < s.len() && is_ident(s[j]) {
        lemma_ident_end_ge(s, j + 1);
    }
}

proof fn lemma_paren_end_bounds(s: Seq<char>, j: int, dep: nat)
    ensures
        match paren_end(s, j, dep) {
            Some(q) => j <= q <= s.len() || (dep == 0 && q == j),
            None => true,
        },
        dep > 0 ==> match paren_end(s, j, dep) {
            Some(q) => j < q <= s.len(),
            None => true,
        },
    decreases s.len() - j,
{
    if dep != 0 && 0 <= j < s.len() {
        if s[j] == '(' {
            lemma_paren_end_bounds(s, j + 1, dep + 1);
        } else if s[j] == ')' {
            lemma_paren_end_bounds(s, j + 1, (dep - 1) as nat);
        } else if s[j] == '\'' {
            let k = skip_quoted(s, j + 1);
            if !(k <= j || k > s.len()) {
                lemma_paren_end_bounds(s, k, dep);
            }
        } else {
            lemma_paren_end_bounds(s, j + 1, dep);
        }
    }
}

proof fn lemma_paren_end_shift(s: Seq<char>, t: Seq<char>, i: int, d: int, j: int, dep: nat)
    requires
        same_tail(s, t, i, d),
        i <= j,
    ensures
        match paren_end(s, j, dep) {
            Some(q) => paren_end(t, j + d, dep) == Some(q + d),
            None => paren_end(t, j + d, dep) is None,
        },
    decreases s.len() - j,
{
    if dep != 0 && j < s.len() {
        assert(s[j] == t[j + d]);
        assert(j + 1 + d == (j + d) + 1);
        if s[j] == '(' {
            lemma_paren_end_shift(s, t, i, d, j + 1, dep + 1);
        } else if s[j] == ')' {
            lemma_paren_end_shift(s, t, i, d, j + 1, (dep - 1) as nat);
        } else if s[j] == '\'' {
            lemma_skip_quoted_shift(s, t, i, d, j + 1);
            let k = skip_quoted(s, j + 1);
            if !(k <= j || k > s.len()) {
                lemma_paren_end_shift(s, t, i, d, k, dep);
            }
        } else {
            lemma_paren_end_shift(s, t, i, d, j + 1, dep);
        }
    }
}

proof fn lemma_fold_in_list_shift(s: Seq<char>, t: Seq<char>, i: int, d: int, j: int)
    requires
        same_tail(s, t, i, d),
        i <= j,
    ensures
        match fold_in_list(s, j) {
            Some(q) => fold_in_list(t, j + d) == Some(q + d),
            None => fold_in_list(t, j + d) is None,
        },
{
    lemma_ws_end_shift(s, t, i, d, j);
    lemma_ws_end_ge(s, j);
    let p = ws_end(s, j);
    if p < s.len() {
        assert(s[p] == t[p + d]);
        if s[p] == '(' {
            lemma_paren_end_shift(s, t, i, d, p + 1, 1);
            assert(p + 1 + d == (p + d) + 1);
            lemma_paren_end_bounds(s, p + 1, 1);
            match paren_end(s, p + 1, 1) {
                Some(q) => {
                    assert(t.subrange(p + d + 1, q + d - 1) =~= s.subrange(p + 1, q - 1)) by {
                        assert forall|r: int| 0 <= r < q - 1 - (p + 1) implies
                            #[trigger] t.subrange(p + d + 1, q + d - 1)[r] == s.subrange(p + 1, q - 1)[r] by {
                            assert(s[p + 1 + r] == t[p + 1 + r + d]);
                        }
                    }
                }
                None => {}
            }
        }
    }
}

proof fn lemma_word_step_shift(s: Seq<char>, t: Seq<char>, i: int, d: int, out: Seq<char>)
    requires
        same_tail(s, t, i, d),
        i < s.len(),
    ensures
        word_step(t, i + d, out) == ({
            let (j, o) = word_step(s, i, out);
            (j + d, o)
        }),
{
    lemma_ident_end_shift(s, t, i, d, i);
    lemma_ident_end_ge(s, i);
    let j = ident_end(s, i);
    assert(t.subrange(i + d, j + d) =~= s.subrange(i, j)) by {
        assert forall|r: int| 0 <= r < j - i implies #[trigger] t.subrange(i + d, j + d)[r] == s.subrange(i, j)[r] by {
            assert(s[i + r] == t[i + r + d]);
        }
    }
    lemma_fold_in_list_shift(s, t, i, d, j);
}

/// The scan from a position depends only on the text from that position on.
proof fn lemma_scan_shift(s: Seq<char>, t: Seq<char>, i: int, d: int, out: Seq<char>, norm: bool)
    requires
        same_tail(s, t, i, d),
    ensures
        scan(t, i + d, out, norm) == scan(s, i, out, norm),
    decreases s.len() - i,
{
    if i < s.len() {
        assert(s[i] == t[i + d]);
        if i + 1 < s.len() {
            assert(s[i + 1] == t[i + 1 + d]);
        }
        lemma_skip_quoted_shift(s, t, i, d, i + 1);
        lemma_num_end_shift(s, t, i, d, i + 1);
        lemma_ws_end_shift(s, t, i, d, i + 1);
        lemma_line_end_shift(s, t, i, d, i);
        lemma_block_end_shift(s, t, i, d, i + 2);
        lemma_word_step_shift(s, t, i, d, out);
        lemma_skip_quoted_ge(s, i + 1);
        let j0 = skip_quoted(s, i + 1);
        assert(t.subrange(i + d, j0 + d) =~= s.subrange(i, j0)) by {
            assert forall|r: int| 0 <= r < j0 - i implies #[trigger] t.subrange(i + d, j0 + d)[r] == s.subrange(i, j0)[r] by {
                assert(s[i + r] == t[i + r + d]);
            }
        }
        assert(i + 1 + d == (i + d) + 1);
        assert(i + 2 + d == (i + d) + 2);
        let (j, o) = step(s, i, out, norm);
        let (j2, o2) = step(t, i + d, out, norm);
        assert(j2 == j + d && o2 == o);
        if i < j && j <= s.len() {
            assert forall|p: int| j <= p < s.len() implies #[trigger] s[p] == t[p + d] by {
                assert(same_tail(s, t, i, d));
            }
            lemma_scan_shift(s, t, j, d, o, norm);
        }
    }
}


/// The scan of `s` (the template scan when `norm`, else the fingerprint
/// scan), started at `i` with `out` written, arrives at position `k` with
/// `o` written: `k` is where a token of `s` starts.
pub open spec fn visits(s: Seq<char>, i: int, out: Seq<char>, k: int, o: Seq<char>, norm: bool) -> bool
    decreases s.len() - i,
{
    if i == k {
        out == o
    } else if i < 0 || i >= s.len() || i > k {
        false
    } else {
        let (j, p) = step(s, i, out, norm);
        if j <= i || j > s.len() {
            false
        } else {
            visits(s, j, p, k, o, norm)
        }
    }
}

/// Scanning on from a visited position gives the whole scan.
proof fn lemma_visits_scan(s: Seq<char>, i: int, out: Seq<char>, k: int, o: Seq<char>, norm: bool)
    requires
        visits(s, i, out, k, o, norm),
    ensures
        scan(s, i, out, norm) == scan(s, k, o, norm),
    decreases s.len() - i,
{
    if i != k {
        let (j, p) = step(s, i, out, norm);
        lemma_visits_scan(s, j, p, k, o, norm);
    }
}

/// The characters at `k` of `s` and `t` look alike to the scanner's
/// look-ahead: both or neither a quote, a digit or `.`, whitespace.
pub open spec fn same_class(a: char, b: char) -> bool {
    &&& (a == '\'') == (b == '\'')
    &&& (is_digit(a) || a == '.') == (is_digit(b) || b == '.')
    &&& is_ws(a) == is_ws(b)
}

/// `s` and `t` agree before `k` and look alike at `k`.
pub open spec fn same_head(s: Seq<char>, t: Seq<char>, k: int) -> bool {
    &&& 0 <= k < s.len()
    &&& k < t.len()
    &&& forall|p: int| 0 <= p < k ==> #[trigger] s[p] == t[p]
    &&& same_class(s[k], t[k])
}

pub(crate) proof fn lemma_skip_quoted_ge(s: Seq<char>, j: int)
    requires
        0 <= j,
    ensures
        j >= s.len() ==> skip_quoted(s, j) == s.len(),
        j < s.len() ==> skip_quoted(s, j) > j,
        skip_quoted(s, j) <= s.len(),
    decreases s.len() - j,
{
    if j < s.len() {
        if s[j] == '\'' {
            if j + 1 < s.len() && s[j + 1] == '\'' {
                lemma_skip_quoted_ge(s, j + 2);
            }
        } else {
            lemma_skip_quoted_ge(s, j + 1);
        }
    }
}

proof fn lemma_num_end_ge(s: Seq<char>, j: int)
    ensures
        num_end(s, j) >= j,
    decreases s.len() - j,
{
    if j < s.len() && (is_digit(s[j]) || s[j] == '.') {
        lemma_num_end_ge(s, j + 1);
    }
}

proof fn lemma_ws_end_ge(s: Seq<char>, j: int)
    ensures
        ws_end(s, j) >= j,
    decreases s.len() - j,
{
    if j < s.len() && is_ws(s[j]) {
        lemma_ws_end_ge(s, j + 1);
    }
}

proof fn lemma_skip_quoted_head(s: Seq<char>, t: Seq<char>, k: int, j: int)
    requires
        same_head(s, t, k),
        0 <= j,
        skip_quoted(s, j) <= k,
    ensures
        skip_quoted(t, j) == skip_quoted(s, j),
    decreases s.len() - j,
{
    lemma_skip_quoted_ge(s, j);
    assert(j < k);
    assert(s[j] == t[j]);
    if s[j] == '\'' {
        if j + 1 < k {
            assert(s[j + 1] == t[j + 1]);
        }
        if j + 1 < s.len() && s[j + 1] == '\'' {
            lemma_skip_quoted_head(s, t, k, j + 2);
        }
    } else {
        lemma_skip_quoted_head(s, t, k, j + 1);
    }
}

proof fn lemma_num_end_head(s: Seq<char>, t: Seq<char>, k: int, j: int)
    requires
        same_head(s, t, k),
        0 <= j <= k,
        num_end(s, j) <= k,
    ensures
        num_end(t, j) == num_end(s, j),
    decreases s.len() - j,
{
    if j < k {
        assert(s[j] == t[j]);
        if is_digit(s[j]) || s[j] == '.' {
            lemma_num_end_head(s, t, k, j + 1);
        }
    } else {
        lemma_num_end_ge(s, j + 1);
    }
}

proof fn lemma_ws_end_head(s: Seq<char>, t: Seq<char>, k: int, j: int)
    requires
        same_head(s, t, k),
        0 <= j <= k,
        ws_end(s, j) <= k,
    ensures
        ws_end(t, j) == ws_end(s, j),
    decreases s.len() - j,
{
    if j < k {
        assert(s[j] == t[j]);
        if is_ws(s[j]) {
            lemma_ws_end_head(s, t, k, j + 1);
        }
    } else {
        lemma_ws_end_ge(s, j + 1);
    }
}

/// A scan that reaches `k` in `s` reaches it, with the same output, in a
/// text that agrees with `s` before `k` and looks alike at `k`.
proof fn lemma_visits_head(s: Seq<char>, t: Seq<char>, k: int, i: int, out: Seq<char>, o: Seq<char>)
    requires
        same_head(s, t, k),
        0 <= i,
        visits(s, i, out, k, o, false),
    ensures
        visits(t, i, out, k, o, false),
    decreases s.len() - i,
{
    if i != k {
        let (j, p) = step(s, i, out, false);
        assert(j <= k) by {
            if j > k {
                assert(!visits(s, j, p, k, o, false));
            }
        }
        assert(s[i] == t[i]);
        let c = s[i];
        if c == '\'' {
            lemma_skip_quoted_head(s, t, k, i + 1);
        } else if is_digit(c) && !prev_ident(out) {
            lemma_num_end_head(s, t, k, i + 1);
        } else if is_ws(c) {
            lemma_ws_end_head(s, t, k, i + 1);
        }
        assert(step(t, i, out, false) == step(s, i, out, false));
        lemma_visits_head(s, t, k, j, p, o);
    }
}


/// A number literal: a digit, then digits and `.`.
pub open spec fn is_number_literal(x: Seq<char>) -> bool {
    &&& x.len() > 0
    &&& is_digit(x[0])
    &&& forall|p: int| 0 <= p < x.len() ==> is_digit(#[trigger] x[p]) || x[p] == '.'
}

/// The body of a string literal: characters other than `'`, and `''`
/// (an escaped quote).
pub open spec fn quoted_body(x: Seq<char>) -> bool
    decreases x.len(),
{
    if x.len() == 0 {
        true
    } else if x[0] != '\'' {
        quoted_body(x.drop_first())
    } else {
        x.len() >= 2 && x[1] == '\'' && quoted_body(x.skip(2))
    }
}

/// A string literal: `'`, a body in which quotes are doubled, `'`.
pub open spec fn is_string_literal(x: Seq<char>) -> bool {
    &&& x.len() >= 2
    &&& x[0] == '\''
    &&& x[x.len() - 1] == '\''
    &&& quoted_body(x.subrange(1, x.len() - 1))
}

proof fn lemma_num_end_run(s: Seq<char>, j: int, e: int)
    requires
        0 <= j <= e <= s.len(),
        forall|p: int| j <= p < e ==> is_digit(#[trigger] s[p]) || s[p] == '.',
        e == s.len() || !(is_digit(s[e]) || s[e] == '.'),
    ensures
        num_end(s, j) == e,
    decreases e - j,
{
    if j < e {
        lemma_num_end_run(s, j + 1, e);
    }
}

proof fn lemma_skip_quoted_body(s: Seq<char>, j: int, e: int)
    requires
        0 <= j <= e < s.len(),
        quoted_body(s.subrange(j, e)),
        s[e] == '\'',
        e + 1 >= s.len() || s[e + 1] != '\'',
    ensures
        skip_quoted(s, j) == e + 1,
    decreases e - j,
{
    if j < e {
        let body = s.subrange(j, e);
        assert(body[0] == s[j]);
        if s[j] != '\'' {
            assert(body.drop_first() =~= s.subrange(j + 1, e));
            lemma_skip_quoted_body(s, j + 1, e);
        } else {
            assert(body[1] == s[j + 1]);
            assert(body.skip(2) =~= s.subrange(j + 2, e));
            lemma_skip_quoted_body(s, j + 2, e);
        }
    }
}

proof fn lemma_literal_value_at(a: Seq<char>, x: Seq<char>, y: Seq<char>, b: Seq<char>, o: Seq<char>)
    requires
        (is_number_literal(x) && is_number_literal(y) && !prev_ident(o) && (b.len() == 0 || !(is_digit(b[0]) || b[0] == '.')))
            || (is_string_literal(x) && is_string_literal(y) && (b.len() == 0 || b[0] != '\'')),
        visits(a + x + b, 0, seq![], a.len() as int, o, false),
    ensures
        spec_fingerprint(a + x + b) == spec_fingerprint(a + y + b),
{
    let s = a + x + b;
    let t = a + y + b;
    let k = a.len() as int;
    let ex = k + x.len();
    let ey = k + y.len();
    assert(s[k] == x[0] && t[k] == y[0]);
    assert forall|p: int| 0 <= p < k implies #[trigger] s[p] == t[p] by {
        assert(s[p] == a[p] && t[p] == a[p]);
    }
    assert(same_head(s, t, k));
    lemma_visits_head(s, t, k, 0, seq![], o);
    lemma_visits_scan(s, 0, seq![], k, o, false);
    lemma_visits_scan(t, 0, seq![], k, o, false);
    let o2 = o.push('?');
    if is_number_literal(x) && is_number_literal(y) && !prev_ident(o) && (b.len() == 0 || !(is_digit(b[0]) || b[0] == '.')) {
        assert forall|p: int| k + 1 <= p < ex implies is_digit(#[trigger] s[p]) || s[p] == '.' by {
            assert(s[p] == x[p - k]);
        }
        assert forall|p: int| k + 1 <= p < ey implies is_digit(#[trigger] t[p]) || t[p] == '.' by {
            assert(t[p] == y[p - k]);
        }
        if ex < s.len() {
            assert(s[ex] == b[0]);
        }
        if ey < t.len() {
            assert(t[ey] == b[0]);
        }
        lemma_num_end_run(s, k + 1, ex);
        lemma_num_end_run(t, k + 1, ey);
    } else {
        assert(s.subrange(k + 1, ex - 1) =~= x.subrange(1, x.len() - 1));
        assert(t.subrange(k + 1, ey - 1) =~= y.subrange(1, y.len() - 1));
        assert(s[ex - 1] == x[x.len() - 1]);
        assert(t[ey - 1] == y[y.len() - 1]);
        if ex < s.len() {
            assert(s[ex] == b[0]);
        }
        if ey < t.len() {
            assert(t[ey] == b[0]);
        }
        lemma_skip_quoted_body(s, k + 1, ex - 1);
        lemma_skip_quoted_body(t, k + 1, ey - 1);
    }
    assert(step(s, k, o, false) == (ex, o2));
    assert(step(t, k, o, false) == (ey, o2));
    assert(scan(s, k, o, false) == scan(s, ex, o2, false));
    assert(scan(t, k, o, false) == scan(t, ey, o2, false));
    assert forall|p: int| ex <= p < s.len() implies #[trigger] s[p] == t[p + (ey - ex)] by {
        assert(s[p] == b[p - ex]);
        assert(t[p + (ey - ex)] == b[p - ex]);
    }
    assert(same_tail(s, t, ex, ey - ex));
    lemma_scan_shift(s, t, ex, ey - ex, o2, false);
}

/// What the fingerprint scan has written last when it stands at `k`: an
/// identifier character only when it copied `s[k - 1]`, an identifier
/// character.
proof fn lemma_visits_prev_ident(s: Seq<char>, i: int, out: Seq<char>, k: int, o: Seq<char>)
    requires
        visits(s, i, out, k, o, false),
        prev_ident(o),
    ensures
        (k > i && 0 < k <= s.len() && is_ident(s[k - 1])) || (k == i && prev_ident(out)),
    decreases s.len() - i,
{
    if i != k {
        let (j, p) = step(s, i, out, false);
        lemma_visits_prev_ident(s, j, p, k, o);
        if k == j {
            let c = s[i];
            if c == '\'' {
                assert(p.last() == '?');
            } else if is_digit(c) && !prev_ident(out) {
                assert(p.last() == '?');
            } else if is_ws(c) {
                assert(p.last() == ' ');
            } else {
                assert(p == out.push(c) && j == i + 1);
            }
        }
    }
}

/// Law: statements that differ only in the value of one literal have the
/// same fingerprint.  The literal is one that the fingerprint scan sees as
/// a token of its own (not a part of another literal): a number (digits
/// and `.`, starting with a digit, not preceded by an ASCII letter, digit,
/// `_` or `.`, and not followed by another digit or `.`) or a string
/// literal, its inner quotes doubled (not followed by another quote).
pub proof fn lemma_fingerprint_ignores_literal_value(a: Seq<char>, x: Seq<char>, y: Seq<char>, b: Seq<char>)
    requires
        (is_number_literal(x) && is_number_literal(y) && (a.len() == 0 || !is_ident(a.last()))
            && (b.len() == 0 || !(is_digit(b[0]) || b[0] == '.')))
            || (is_string_literal(x) && is_string_literal(y) && (b.len() == 0 || b[0] != '\'')),
        exists|o: Seq<char>| visits(a + x + b, 0, seq![], a.len() as int, o, false),
    ensures
        spec_fingerprint(a + x + b) == spec_fingerprint(a + y + b),
{
    let o = choose|o: Seq<char>| visits(a + x + b, 0, seq![], a.len() as int, o, false);
    let s = a + x + b;
    if prev_ident(o) {
        lemma_visits_prev_ident(s, 0, seq![], a.len() as int, o);
        if a.len() > 0 {
            assert(s[a.len() - 1] == a.last());
        }
    }
    lemma_literal_value_at(a, x, y, b, o);
}


// ─────────────────────── IN lists do not change a template key ───────────────────────

/// `x` is the body of a parenthesised list: starting inside one open
/// parenthesis, the `)` after `x` is the one that closes it (quotes in `x`
/// are closed, parentheses balanced).
pub open spec fn closes_list(x: Seq<char>) -> bool {
    paren_end(x.push(')'), 0, 1) == Some(x.len() + 1int)
}

proof fn lemma_skip_quoted_prefix(u: Seq<char>, s: Seq<char>, off: int, j: int)
    requires
        0 <= off,
        0 <= j,
        off + u.len() <= s.len(),
        forall|q: int| 0 <= q < u.len() ==> #[trigger] s[off + q] == u[q],
        skip_quoted(u, j) < u.len(),
    ensures
        skip_quoted(s, off + j) == off + skip_quoted(u, j),
    decreases u.len() - j,
{
    assert(j < u.len());
    assert(s[off + j] == u[j]);
    assert(off + j + 1 == off + (j + 1));
    if u[j] == '\'' {
        if j + 1 < u.len() {
            assert(s[off + (j + 1)] == u[j + 1]);
        }
        if j + 1 < u.len() && u[j + 1] == '\'' {
            assert(off + j + 2 == off + (j + 2));
            lemma_skip_quoted_prefix(u, s, off, j + 2);
        }
    } else {
        lemma_skip_quoted_prefix(u, s, off, j + 1);
    }
}

proof fn lemma_paren_end_prefix(u: Seq<char>, s: Seq<char>, off: int, j: int, dep: nat)
    requires
        0 <= off,
        0 <= j,
        off + u.len() <= s.len(),
        forall|q: int| 0 <= q < u.len() ==> #[trigger] s[off + q] == u[q],
        paren_end(u, j, dep) is Some,
    ensures
        paren_end(s, off + j, dep) == Some(off + paren_end(u, j, dep)->0),
    decreases u.len() - j,
{
    if dep != 0 {
        assert(j < u.len());
        assert(s[off + j] == u[j]);
        assert(off + j + 1 == off + (j + 1));
        if u[j] == '(' {
            lemma_paren_end_prefix(u, s, off, j + 1, dep + 1);
        } else if u[j] == ')' {
            lemma_paren_end_prefix(u, s, off, j + 1, (dep - 1) as nat);
        } else if u[j] == '\'' {
            let k = skip_quoted(u, j + 1);
            assert(!(k <= j || k > u.len()));
            if k == u.len() {
                assert(paren_end(u, k, dep) is None);
            }
            lemma_skip_quoted_prefix(u, s, off, j + 1);
            lemma_paren_end_prefix(u, s, off, k, dep);
        } else {
            lemma_paren_end_prefix(u, s, off, j + 1, dep);
        }
    }
}

proof fn lemma_ws_end_run(s: Seq<char>, j: int, e: int)
    requires
        0 <= j <= e <= s.len(),
        forall|p: int| j <= p < e ==> is_ws(#[trigger] s[p]),
        e == s.len() || !is_ws(s[e]),
    ensures
        ws_end(s, j) == e,
    decreases e - j,
{
    if j < e {
        lemma_ws_end_run(s, j + 1, e);
    }
}

/// The template scan of `a + w + sp + "(" + x + ")" + b`, standing at the
/// word `w` (an `IN`) with `o` written, folds the list and goes on after
/// the `)` with `o + "IN (?)"` written.
proof fn lemma_in_word_step(a: Seq<char>, w: Seq<char>, sp: Seq<char>, x: Seq<char>, b: Seq<char>, o: Seq<char>)
    requires
        is_in_word(w),
        forall|p: int| 0 <= p < sp.len() ==> is_ws(#[trigger] sp[p]),
        closes_list(x),
        !has_subquery_from(x, 0),
        !prev_ident(o),
    ensures
        ({
            let s = a + w + sp + seq!['('] + x + seq![')'] + b;
            let q = (a.len() + w.len() + sp.len() + 1 + x.len() + 1) as int;
            &&& q <= s.len()
            &&& step(s, a.len() as int, o, true) == (q, o + seq!['I', 'N'] + seq![' ', '(', '?', ')'])
            &&& forall|p: int| q <= p < s.len() ==> #[trigger] s[p] == b[p - q]
        }),
{
    let s = a + w + sp + seq!['('] + x + seq![')'] + b;
    let k = a.len() as int;
    assert(upper_seq(w).len() == w.len());
    assert(w.len() == 2);
    assert(upper(w[0]) == upper_seq(w)[0]);
    assert(upper(w[1]) == upper_seq(w)[1]);
    assert(is_alpha(w[0]) && is_alpha(w[1]));
    assert(s[k] == w[0] && s[k + 1] == w[1]);
    let j = k + 2;
    let pp = j + sp.len();
    let m = pp + 1;
    let q = m + x.len() + 1;
    assert(s[pp] == '(');
    assert forall|r: int| j <= r < pp implies is_ws(#[trigger] s[r]) by {
        assert(s[r] == sp[r - j]);
    }
    // the word ends after two letters
    if sp.len() > 0 {
        assert(s[j] == sp[0]);
    }
    assert(!is_ident(s[j]));
    assert(ident_end(s, j) == j);
    assert(ident_end(s, k + 1) == j);
    assert(ident_end(s, k) == j);
    assert(s.subrange(k, j) =~= w);
    assert(is_keyword(w)) by {
        assert(upper_seq(w) =~= seq!['I', 'N']);
    }
    // the list after it
    lemma_ws_end_run(s, j, pp);
    let u = x.push(')');
    assert forall|r: int| 0 <= r < u.len() implies #[trigger] s[m + r] == u[r] by {
        if r < x.len() {
            assert(s[m + r] == x[r]);
        } else {
            assert(s[m + r] == ')');
        }
    }
    lemma_paren_end_prefix(u, s, m, 0, 1);
    assert(paren_end(s, m, 1) == Some(q));
    assert(s.subrange(m, q - 1) =~= x);
    assert(fold_in_list(s, j) == Some(q));
    assert(upper_seq(s.subrange(k, j)) =~= seq!['I', 'N']);
    assert(step(s, k, o, true) == word_step(s, k, o));
    assert forall|p: int| q <= p < s.len() implies #[trigger] s[p] == b[p - q] by {}
}

/// Law: statements that differ only in the items of one `IN (...)` list
/// have the same template key, whatever the number and the values of the
/// items.  The list holds no sub-query (no word `SELECT` or `FROM`), its
/// quotes are closed and its parentheses balanced; the word `IN` is not
/// glued to a preceding identifier, and the template scan of each statement
/// reaches it, having written `o`.
pub proof fn lemma_template_ignores_in_list(
    a: Seq<char>,
    w: Seq<char>,
    sp: Seq<char>,
    x: Seq<char>,
    y: Seq<char>,
    b: Seq<char>,
    o: Seq<char>,
)
    requires
        is_in_word(w),
        forall|p: int| 0 <= p < sp.len() ==> is_ws(#[trigger] sp[p]),
        closes_list(x),
        closes_list(y),
        !has_subquery_from(x, 0),
        !has_subquery_from(y, 0),
        !prev_ident(o),
        visits(a + w + sp + seq!['('] + x + seq![')'] + b, 0, seq![], a.len() as int, o, true),
        visits(a + w + sp + seq!['('] + y + seq![')'] + b, 0, seq![], a.len() as int, o, true),
    ensures
        spec_normalize_template(a + w + sp + seq!['('] + x + seq![')'] + b)
            == spec_normalize_template(a + w + sp + seq!['('] + y + seq![')'] + b),
{
    let s = a + w + sp + seq!['('] + x + seq![')'] + b;
    let t = a + w + sp + seq!['('] + y + seq![')'] + b;
    let k = a.len() as int;
    let qs: int = (a.len() + w.len() + sp.len() + 1 + x.len() + 1) as int;
    let qt: int = (a.len() + w.len() + sp.len() + 1 + y.len() + 1) as int;
    let o2 = o + seq!['I', 'N'] + seq![' ', '(', '?', ')'];
    lemma_visits_scan(s, 0, seq![], k, o, true);
    lemma_visits_scan(t, 0, seq![], k, o, true);
    lemma_in_word_step(a, w, sp, x, b, o);
    lemma_in_word_step(a, w, sp, y, b, o);
    assert(scan(s, k, o, true) == scan(s, qs, o2, true));
    assert(scan(t, k, o, true) == scan(t, qt, o2, true));
    assert forall|p: int| qs <= p < s.len() implies #[trigger] s[p] == t[p + (qt - qs)] by {
        assert(s[p] == b[p - qs]);
        assert(t[p + (qt - qs)] == b[p + (qt - qs) - qt]);
    }
    assert(same_tail(s, t, qs, qt - qs));
    lemma_scan_shift(s, t, qs, qt - qs, o2, true);
}


// ─────────────────────── keyword case does not change a template key ───────────────────────

/// The SQL keywords that template keys write in upper case.
pub open spec fn sql_keywords() -> Seq<Seq<char>> {
    seq![
        seq!['S', 'E', 'L', 'E', 'C', 'T'],
        seq!['F', 'R', 'O', 'M'],
        seq!['W', 'H', 'E', 'R', 'E'],
        seq!['A', 'N', 'D'],
        seq!['O', 'R'],
        seq!['J', 'O', 'I', 'N'],
        seq!['O', 'N'],
        seq!['A', 'S'],
        seq!['I', 'N', 'S', 'E', 'R', 'T'],
        seq!['U', 'P', 'D', 'A', 'T', 'E'],
        seq!['D', 'E', 'L', 'E', 'T', 'E'],
        seq!['I', 'N', 'T', 'O'],
        seq!['V', 'A', 'L', 'U', 'E', 'S'],
        seq!['S', 'E', 'T'],
        seq!['G', 'R', 'O', 'U', 'P'],
        seq!['O', 'R', 'D', 'E', 'R'],
        seq!['B', 'Y'],
        seq!['H', 'A', 'V', 'I', 'N', 'G'],
        seq!['U', 'N', 'I', 'O', 'N'],
        seq!['D', 'I', 'S', 'T', 'I', 'N', 'C', 'T'],
        seq!['L', 'I', 'M', 'I', 'T'],
        seq!['C', 'R', 'E', 'A', 'T', 'E'],
        seq!['D', 'R', 'O', 'P'],
        seq!['A', 'L', 'T', 'E', 'R'],
        seq!['I', 'N'],
        seq!['N', 'O', 'T'],
        seq!['N', 'U', 'L', 'L'],
        seq!['I', 'S'],
        seq!['B', 'E', 'T', 'W', 'E', 'E', 'N'],
        seq!['L', 'I', 'K', 'E'],
        seq!['E', 'X', 'I', 'S', 'T', 'S'],
        seq!['C', 'A', 'S', 'E'],
        seq!['W', 'H', 'E', 'N'],
        seq!['T', 'H', 'E', 'N'],
        seq!['E', 'L', 'S', 'E'],
        seq!['E', 'N', 'D']
    ]
}

proof fn lemma_upper_letter(c: char)
    requires
        'A' <= upper(c) <= 'Z',
    ensures
        is_alpha(c),
        upper(upper(c)) == upper(c),
{
}

/// Law: template keys ignore the case of SQL keywords.  A statement whose
/// word `w` (not glued to identifier characters on either side) is a SQL
/// keyword in any ASCII case has the template key of the same statement
/// with the keyword in upper case, when the template scan of each reaches
/// the word having written `o`.
pub proof fn lemma_template_ignores_keyword_case(a: Seq<char>, w: Seq<char>, b: Seq<char>, o: Seq<char>)
    requires
        sql_keywords().contains(upper_seq(w)),
        !prev_ident(o),
        b.len() == 0 || !is_ident(b[0]),
        visits(a + w + b, 0, seq![], a.len() as int, o, true),
        visits(a + upper_seq(w) + b, 0, seq![], a.len() as int, o, true),
    ensures
        spec_normalize_template(a + w + b) == spec_normalize_template(a + upper_seq(w) + b),
{
    let s = a + w + b;
    let u = upper_seq(w);
    let t = a + u + b;
    let k = a.len() as int;
    let j = k + w.len();
    let ki = choose|i: int| 0 <= i < sql_keywords().len() && sql_keywords()[i] == u;
    let kw = sql_keywords()[ki];
    assert(forall|q: int| 0 <= q < kw.len() ==> 'A' <= #[trigger] kw[q] <= 'Z');
    assert(u.len() == w.len());
    assert(w.len() > 0);
    assert forall|q: int| 0 <= q < w.len() implies is_alpha(#[trigger] w[q]) && upper(u[q]) == u[q] by {
        assert(u[q] == upper(w[q]));
        assert(u[q] == kw[q]);
        lemma_upper_letter(w[q]);
    }
    assert(upper_seq(u) =~= u);
    // both words end where `b` starts
    assert forall|q: int| k <= q < j implies is_ident(#[trigger] s[q]) && is_ident(t[q]) by {
        assert(s[q] == w[q - k]);
        assert(t[q] == u[q - k]);
        assert(is_alpha(w[q - k]));
        lemma_upper_letter(w[q - k]);
    }
    assert(ident_end(s, j) == j) by {
        if j < s.len() {
            assert(s[j] == b[0]);
        }
    }
    assert(ident_end(t, j) == j) by {
        if j < t.len() {
            assert(t[j] == b[0]);
        }
    }
    assert forall|q: int| k <= q <= j implies #[trigger] ident_end(s, q) == j && ident_end(t, q) == j by {
        lemma_ident_end_run(s, q, j);
        lemma_ident_end_run(t, q, j);
    }
    assert(s.subrange(k, j) =~= w);
    assert(t.subrange(k, j) =~= u);
    assert(is_alpha(s[k]) && is_alpha(t[k])) by {
        assert(s[k] == w[0]);
        assert(t[k] == u[0]);
        lemma_upper_letter(w[0]);
    }
    // the rest of the two statements is the same
    assert forall|p: int| j <= p < s.len() implies #[trigger] s[p] == t[p + 0] by {
        assert(s[p] == b[p - j]);
        assert(t[p] == b[p - j]);
    }
    assert(same_tail(s, t, j, 0));
    lemma_fold_in_list_shift(s, t, j, 0, j);
    lemma_visits_scan(s, 0, seq![], k, o, true);
    lemma_visits_scan(t, 0, seq![], k, o, true);
    let (q1, o1) = step(s, k, o, true);
    let (q2, o2) = step(t, k, o, true);
    assert(step(s, k, o, true) == word_step(s, k, o));
    assert(step(t, k, o, true) == word_step(t, k, o));
    assert(q1 == q2 && o1 == o2);
    assert(q1 >= j) by {
        lemma_ws_end_ge(s, j);
        lemma_paren_end_bounds(s, ws_end(s, j) + 1, 1);
    }
    assert forall|p: int| q1 <= p < s.len() implies #[trigger] s[p] == t[p + 0] by {
        assert(same_tail(s, t, j, 0));
    }
    assert(same_tail(s, t, q1, 0));
    lemma_scan_shift(s, t, q1, 0, o1, true);
}

proof fn lemma_ident_end_run(s: Seq<char>, q: int, j: int)
    requires
        0 <= q <= j <= s.len(),
        forall|p: int| q <= p < j ==> is_ident(#[trigger] s[p]),
        j == s.len() || !is_ident(s[j]),
    ensures
        ident_end(s, q) == j,
    decreases j - q,
{
    if q < j {
        lemma_ident_end_run(s, q + 1, j);
    }
}

} // verus!
