//! Character-level helpers shared by the scanners of this crate.

use vstd::prelude::*;

verus! {

broadcast use vstd::string::group_string_axioms;

/// Appends one character to a `String` (`String::push`).
/// Trusted: `String::push` appends `c` at the end of the string.
#[verifier::external_body]
pub(crate) fn push_char(s: &mut String, c: char)
    ensures
        final(s)@ == old(s)@.push(c),
{
    s.push(c);
}

/// The characters of `s`, in order.
pub fn chars_of(s: &str) -> (v: Vec<char>)
    ensures
        v@ == s@,
{
    let mut v: Vec<char> = Vec::new();
    for c in it: s.chars()
        invariant
            v@ == it.seq().take(it.index() as int),
    {
        v.push(c);
    }
    v
}

} // verus!

verus! {

/// A `String` holding exactly the characters of `v`.
pub fn string_from_chars(v: &Vec<char>) -> (s: String)
    ensures
        s@ == v@,
{
    let mut s = String::new();
    let mut i: usize = 0;
    while i < v.len()
        invariant
            i <= v.len(),
            s@ == v@.take(i as int),
        decreases v.len() - i,
    {
        push_char(&mut s, v[i]);
        i += 1;
        assert(s@ =~= v@.take(i as int));
    }
    assert(v@.take(i as int) =~= v@);
    s
}

/// A `String` holding exactly the characters of `s` (`str::to_owned`).
pub fn owned(s: &str) -> (r: String)
    ensures
        r@ == s@,
{
    s.to_owned()
}

/// ASCII digit `0`..=`9`.
pub open spec fn is_digit(c: char) -> bool {
    '0' <= c && c <= '9'
}

/// ASCII letter.
pub open spec fn is_alpha(c: char) -> bool {
    ('a' <= c && c <= 'z') || ('A' <= c && c <= 'Z')
}

/// ASCII letter or digit.
pub open spec fn is_alnum(c: char) -> bool {
    is_alpha(c) || is_digit(c)
}

/// The ASCII whitespace of `char::is_ascii_whitespace`: space, tab, line
/// feed, form feed and carriage return (vertical tab is not among them).
pub open spec fn is_ws(c: char) -> bool {
    c == ' ' || c == '\t' || c == '\n' || c == '\x0C' || c == '\r'
}

/// Upper-case form of an ASCII lower-case letter; other characters unchanged.
pub open spec fn upper(c: char) -> char {
    if 'a' <= c && c <= 'z' {
        ((c as u32) - 32) as char
    } else {
        c
    }
}

/// Every character of `s` is ASCII.
pub open spec fn is_ascii_chars(s: Seq<char>) -> bool {
    forall|i: int| 0 <= i < s.len() ==> (#[trigger] s[i] as u32) < 128
}

/// Lower-case form of an ASCII upper-case letter; other characters unchanged.
pub open spec fn lower(c: char) -> char {
    if 'A' <= c && c <= 'Z' {
        ((c as u32) + 32) as char
    } else {
        c
    }
}

pub fn digit_c(c: char) -> (b: bool)
    ensures
        b == is_digit(c),
{
    '0' <= c && c <= '9'
}

pub fn alpha_c(c: char) -> (b: bool)
    ensures
        b == is_alpha(c),
{
    ('a' <= c && c <= 'z') || ('A' <= c && c <= 'Z')
}

pub fn alnum_c(c: char) -> (b: bool)
    ensures
        b == is_alnum(c),
{
    alpha_c(c) || digit_c(c)
}

pub fn ws_c(c: char) -> (b: bool)
    ensures
        b == is_ws(c),
{
    c == ' ' || c == '\t' || c == '\n' || c == '\x0C' || c == '\r'
}

pub fn upper_c(c: char) -> (r: char)
    ensures
        r == upper(c),
{
    if 'a' <= c && c <= 'z' {
        let u: u32 = (c as u32) - 32;
        assert(0x41 <= u <= 0x5A);
        char_from_ascii(u)
    } else {
        c
    }
}

pub fn lower_c(c: char) -> (r: char)
    ensures
        r == lower(c),
{
    if 'A' <= c && c <= 'Z' {
        let u: u32 = (c as u32) + 32;
        char_from_ascii(u)
    } else {
        c
    }
}

/// The ASCII character with code `u`.
pub(crate) fn char_from_ascii(u: u32) -> (c: char)
    requires
        u < 128,
    ensures
        c == u as char,
{
    let b: u8 = u as u8;
    assert(b == u);
    b as char
}

/// ASCII case-insensitive equality of two character sequences.
pub open spec fn eq_ignore_case(a: Seq<char>, b: Seq<char>) -> bool {
    a.len() == b.len() && forall|i: int| 0 <= i < a.len() ==> #[trigger] upper(a[i]) == upper(b[i])
}

/// `a` begins with `p`.
pub open spec fn starts_with(a: Seq<char>, p: Seq<char>) -> bool {
    p.len() <= a.len() && a.take(p.len() as int) == p
}

/// `p` occurs in `a` at position `k`.
pub open spec fn occurs_at(a: Seq<char>, p: Seq<char>, k: int) -> bool {
    0 <= k && k + p.len() <= a.len() && a.subrange(k, k + p.len()) == p
}

/// `p` occurs somewhere in `a` (`str::contains`).
pub open spec fn contains(a: Seq<char>, p: Seq<char>) -> bool {
    exists|k: int| occurs_at(a, p, k)
}

/// Equality of two string slices, by their characters.
pub fn str_eq(a: &str, b: &str) -> (r: bool)
    ensures
        r == (a@ == b@),
{
    let x = chars_of(a);
    let y = chars_of(b);
    seq_eq(&x, &y)
}

/// Equality of two character vectors.
pub fn seq_eq(x: &Vec<char>, y: &Vec<char>) -> (r: bool)
    ensures
        r == (x@ == y@),
{
    if x.len() != y.len() {
        return false;
    }
    let mut i: usize = 0;
    while i < x.len()
        invariant
            x.len() == y.len(),
            i <= x.len(),
            forall|j: int| 0 <= j < i ==> x@[j] == y@[j],
        decreases x.len() - i,
    {
        if x[i] != y[i] {
            return false;
        }
        i += 1;
    }
    assert(x@ =~= y@);
    true
}

/// Whether `p` occurs in `a` at position `k` (exec form of `occurs_at`).
pub fn occurs_at_exec(a: &Vec<char>, p: &Vec<char>, k: usize) -> (r: bool)
    ensures
        r == occurs_at(a@, p@, k as int),
{
    if k > a.len() || p.len() > a.len() - k {
        return false;
    }
    let mut i: usize = 0;
    while i < p.len()
        invariant
            k + p.len() <= a.len(),
            i <= p.len(),
            forall|j: int| 0 <= j < i ==> a@[k + j] == p@[j],
        decreases p.len() - i,
    {
        if a[k + i] != p[i] {
            assert(a@.subrange(k as int, k + p.len())[i as int] != p@[i as int]);
            return false;
        }
        i += 1;
    }
    assert(a@.subrange(k as int, k + p.len()) =~= p@);
    true
}

/// Whether `p` occurs anywhere in `a` (exec form of `contains`).
pub fn contains_exec(a: &Vec<char>, p: &Vec<char>) -> (r: bool)
    ensures
        r == contains(a@, p@),
{
    if p.len() > a.len() {
        assert forall|k: int| !occurs_at(a@, p@, k) by {}
        return false;
    }
    let mut k: usize = 0;
    while k < a.len() - p.len()
        invariant
            p.len() <= a.len(),
            k <= a.len() - p.len(),
            forall|j: int| 0 <= j < k ==> !occurs_at(a@, p@, j),
        decreases a.len() - p.len() - k,
    {
        if occurs_at_exec(a, p, k) {
            return true;
        }
        k += 1;
    }
    if occurs_at_exec(a, p, k) {
        return true;
    }
    assert forall|j: int| !occurs_at(a@, p@, j) by {
        if 0 <= j && j <= k {
        }
    }
    false
}

/// Whether `a` begins with `p` (exec form of `starts_with`).
pub fn starts_with_exec(a: &Vec<char>, p: &Vec<char>) -> (r: bool)
    ensures
        r == starts_with(a@, p@),
{
    let r = occurs_at_exec(a, p, 0);
    assert(p.len() <= a.len() ==> a@.subrange(0, p@.len() as int) == a@.take(p@.len() as int));
    r
}

/// `str::contains` with a string pattern, by characters.
pub fn str_contains(a: &str, p: &str) -> (r: bool)
    ensures
        r == contains(a@, p@),
{
    let x = chars_of(a);
    let y = chars_of(p);
    contains_exec(&x, &y)
}

/// `str::starts_with` with a string pattern, by characters.
pub fn str_starts_with(a: &str, p: &str) -> (r: bool)
    ensures
        r == starts_with(a@, p@),
{
    let x = chars_of(a);
    let y = chars_of(p);
    starts_with_exec(&x, &y)
}

} // verus!

verus! {

/// Unicode white space (`char::is_whitespace`, the `White_Space` property).
pub open spec fn is_uws(c: char) -> bool {
    ||| ('\t' <= c && c <= '\r')
    ||| c == ' '
    ||| c == '\u{85}'
    ||| c == '\u{A0}'
    ||| c == '\u{1680}'
    ||| ('\u{2000}' <= c && c <= '\u{200A}')
    ||| c == '\u{2028}'
    ||| c == '\u{2029}'
    ||| c == '\u{202F}'
    ||| c == '\u{205F}'
    ||| c == '\u{3000}'
}

pub fn uws_c(c: char) -> (b: bool)
    ensures
        b == is_uws(c),
{
    ('\t' <= c && c <= '\r') || c == ' ' || c == '\u{85}' || c == '\u{A0}' || c == '\u{1680}'
        || ('\u{2000}' <= c && c <= '\u{200A}') || c == '\u{2028}' || c == '\u{2029}'
        || c == '\u{202F}' || c == '\u{205F}' || c == '\u{3000}'
}

/// Number of Unicode white-space characters at the start of `t`.
pub open spec fn lead_uws(t: Seq<char>) -> nat
    decreases t.len(),
{
    if t.len() > 0 && is_uws(t[0]) {
        1 + lead_uws(t.drop_first())
    } else {
        0
    }
}

/// Number of Unicode white-space characters at the end of `t`.
pub open spec fn trail_uws(t: Seq<char>) -> nat
    decreases t.len(),
{
    if t.len() > 0 && is_uws(t.last()) {
        1 + trail_uws(t.drop_last())
    } else {
        0
    }
}

/// `str::trim_start`.
pub open spec fn trim_start(t: Seq<char>) -> Seq<char> {
    t.skip(lead_uws(t) as int)
}

/// `str::trim`.
pub open spec fn trim(t: Seq<char>) -> Seq<char> {
    let u = trim_start(t);
    u.take(u.len() - trail_uws(u))
}

pub proof fn lemma_lead_uws_bound(t: Seq<char>)
    ensures
        lead_uws(t) <= t.len(),
    decreases t.len(),
{
    if t.len() > 0 && is_uws(t[0]) {
        lemma_lead_uws_bound(t.drop_first());
    }
}

pub proof fn lemma_trail_uws_bound(t: Seq<char>)
    ensures
        trail_uws(t) <= t.len(),
    decreases t.len(),
{
    if t.len() > 0 && is_uws(t.last()) {
        lemma_trail_uws_bound(t.drop_last());
    }
}

/// Number of white-space characters at position `from` of `s` and after.
pub fn lead_uws_at(s: &Vec<char>, from: usize) -> (n: usize)
    requires
        from <= s.len(),
    ensures
        n == lead_uws(s@.skip(from as int)),
        from + n <= s.len(),
{
    let mut j = from;
    while j < s.len() && uws_c(s[j])
        invariant
            from <= j <= s.len(),
            lead_uws(s@.skip(from as int)) == (j - from) + lead_uws(s@.skip(j as int)),
        decreases s.len() - j,
    {
        assert(s@.skip(j as int).drop_first() =~= s@.skip(j + 1));
        j += 1;
    }
    j - from
}

/// Number of white-space characters just before position `to` of `s`,
/// not reaching before `from`; equals `trail_uws(s[from..to])`.
pub fn trail_uws_in(s: &Vec<char>, from: usize, to: usize) -> (n: usize)
    requires
        from <= to <= s.len(),
    ensures
        n == trail_uws(s@.subrange(from as int, to as int)),
        n <= to - from,
{
    let mut b = to;
    assert(s@.subrange(from as int, to as int).take(to - from) =~= s@.subrange(from as int, to as int));
    while b > from && uws_c(s[b - 1])
        invariant
            from <= b <= to <= s.len(),
            trail_uws(s@.subrange(from as int, to as int)) == (to - b) + trail_uws(s@.subrange(from as int, b as int)),
        decreases b,
    {
        assert(s@.subrange(from as int, b as int).drop_last() =~= s@.subrange(from as int, b - 1));
        b -= 1;
    }
    to - b
}

} // verus!

verus! {

/// Lexicographic order of character sequences by code point, which is the
/// order of `str` (UTF-8 bytes compare in code-point order).
pub open spec fn seq_lt(a: Seq<char>, b: Seq<char>) -> bool
    decreases a.len(),
{
    if a.len() == 0 {
        b.len() > 0
    } else if b.len() == 0 {
        false
    } else if a[0] != b[0] {
        a[0] < b[0]
    } else {
        seq_lt(a.drop_first(), b.drop_first())
    }
}

/// `a < b` on string slices.
pub fn str_lt(a: &str, b: &str) -> (r: bool)
    ensures
        r == seq_lt(a@, b@),
{
    let x = chars_of(a);
    let y = chars_of(b);
    let mut i: usize = 0;
    assert(x@.skip(0) =~= x@ && y@.skip(0) =~= y@);
    while i < x.len() && i < y.len() && x[i] == y[i]
        invariant
            i <= x.len(),
            i <= y.len(),
            seq_lt(x@, y@) == seq_lt(x@.skip(i as int), y@.skip(i as int)),
        decreases x.len() - i,
    {
        assert(x@.skip(i as int).drop_first() =~= x@.skip(i + 1));
        assert(y@.skip(i as int).drop_first() =~= y@.skip(i + 1));
        i += 1;
    }
    if i == x.len() {
        i < y.len()
    } else if i == y.len() {
        false
    } else {
        x[i] < y[i]
    }
}

} // verus!

verus! {

/// A copy of a list of strings.
pub fn clone_strings(v: &Vec<String>) -> (r: Vec<String>)
    ensures
        r@ == v@,
{
    let mut r: Vec<String> = Vec::new();
    let mut i: usize = 0;
    while i < v.len()
        invariant
            i <= v.len(),
            r@ == v@.take(i as int),
        decreases v.len() - i,
    {
        r.push(v[i].clone());
        i += 1;
        assert(r@ =~= v@.take(i as int));
    }
    assert(v@.take(i as int) =~= v@);
    r
}

/// A copy of an optional list of strings.
pub fn clone_opt_strings(o: &Option<Vec<String>>) -> (r: Option<Vec<String>>)
    ensures
        match (r, *o) {
            (Some(a), Some(b)) => a@ == b@,
            (None, None) => true,
            _ => false,
        },
{
    match o {
        Some(v) => Some(clone_strings(v)),
        None => None,
    }
}

} // verus!

verus! {

/// `str::eq_ignore_ascii_case`.
pub fn str_eq_ignore_case(a: &str, b: &str) -> (r: bool)
    ensures
        r == eq_ignore_case(a@, b@),
{
    let x = chars_of(a);
    let y = chars_of(b);
    if x.len() != y.len() {
        return false;
    }
    let mut i: usize = 0;
    while i < x.len()
        invariant
            i <= x.len(),
            x.len() == y.len(),
            x@ == a@,
            y@ == b@,
            forall|k: int| 0 <= k < i ==> #[trigger] upper(x@[k]) == upper(y@[k]),
        decreases x.len() - i,
    {
        if upper_c(x[i]) != upper_c(y[i]) {
            return false;
        }
        i += 1;
    }
    true
}

/// `t` holds nothing but white space (`t.trim().is_empty()`).
pub open spec fn is_blank(t: Seq<char>) -> bool {
    forall|i: int| 0 <= i < t.len() ==> is_uws(#[trigger] t[i])
}

/// `s.trim().is_empty()`.
pub fn str_is_blank(s: &str) -> (b: bool)
    ensures
        b == is_blank(s@),
{
    let v = chars_of(s);
    let mut i: usize = 0;
    while i < v.len()
        invariant
            i <= v.len(),
            v@ == s@,
            forall|k: int| 0 <= k < i ==> is_uws(#[trigger] v@[k]),
        decreases v.len() - i,
    {
        if !uws_c(v[i]) {
            return false;
        }
        i += 1;
    }
    true
}

/// A `String` holding `v[from..to]`.
pub fn substring(v: &Vec<char>, from: usize, to: usize) -> (s: String)
    requires
        from <= to <= v.len(),
    ensures
        s@ == v@.subrange(from as int, to as int),
{
    let mut s = String::new();
    let mut i: usize = from;
    while i < to
        invariant
            from <= i <= to <= v.len(),
            s@ == v@.subrange(from as int, i as int),
        decreases to - i,
    {
        push_char(&mut s, v[i]);
        i += 1;
        assert(s@ =~= v@.subrange(from as int, i as int));
    }
    s
}

/// The ASCII digit for `d < 10`.
pub open spec fn digit_char(d: int) -> char {
    (d + 48) as char
}

/// Decimal notation of `n`, without leading zeros.
pub open spec fn dec(n: nat) -> Seq<char>
    decreases n,
{
    if n < 10 {
        seq![digit_char(n as int)]
    } else {
        dec(n / 10).push(digit_char((n % 10) as int))
    }
}

/// Appends the decimal notation of `n` to `s`.
pub fn push_decimal(s: &mut String, n: u64)
    ensures
        final(s)@ == old(s)@ + dec(n as nat),
    decreases n,
{
    if n >= 10 {
        push_decimal(s, n / 10);
    }
    let d: u64 = n % 10;
    let c = char_from_ascii((d + 48) as u32);
    push_char(s, c);
    proof {
        if n >= 10 {
            assert(old(s)@ + dec((n / 10) as nat) + seq![c] =~= old(s)@ + dec(n as nat));
        } else {
            assert(old(s)@ + seq![c] =~= old(s)@ + dec(n as nat));
        }
    }
}

/// The decimal notation of `n`.
pub fn decimal_string(n: u64) -> (s: String)
    ensures
        s@ == dec(n as nat),
{
    let mut s = String::new();
    push_decimal(&mut s, n);
    assert(Seq::<char>::empty() + dec(n as nat) =~= dec(n as nat));
    s
}

} // verus!

verus! {

/// `s.trim()`: `s` without leading and trailing white space.
pub fn trimmed(s: &str) -> (r: String)
    ensures
        r@ == trim(s@),
{
    let v = chars_of(s);
    assert(v@.skip(0) =~= v@);
    let a = lead_uws_at(&v, 0);
    let b = trail_uws_in(&v, a, v.len());
    assert(v@.skip(a as int) =~= v@.subrange(a as int, v.len() as int));
    let r = substring(&v, a, v.len() - b);
    assert(r@ =~= trim(s@));
    r
}

} // verus!
