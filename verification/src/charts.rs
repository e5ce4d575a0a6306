//! File names and labels of the generated charts.

use vstd::prelude::*;
use crate::text::{alnum_c, chars_of, is_alnum, owned, push_char};

verus! {

/// A file-name-safe character: ASCII letters, digits, `_` and `-` stay,
/// anything else becomes `_`.
pub open spec fn safe_char(c: char) -> char {
    if is_alnum(c) || c == '_' || c == '-' {
        c
    } else {
        '_'
    }
}

/// `key` with every character made file-name-safe, cut to 80 characters.
pub open spec fn spec_sanitize(key: Seq<char>) -> Seq<char> {
    let n = if key.len() < 80 { key.len() } else { 80 };
    Seq::new(n as nat, |i: int| safe_char(key[i]))
}

/// A file-name-safe form of a template key: ASCII letters, digits, `_`
/// and `-` are kept, other characters become `_`, and at most the first
/// 80 characters are kept.
pub fn sanitize_filename(key: &str) -> (r: String)
    ensures
        r@ == spec_sanitize(key@),
{
    let cs = chars_of(key);
    let n: usize = if cs.len() < 80 { cs.len() } else { 80 };
    let mut r = String::new();
    let mut i: usize = 0;
    while i < n
        invariant
            i <= n <= cs.len(),
            n == (if cs@.len() < 80 { cs@.len() } else { 80 }),
            cs@ == key@,
            r@ == spec_sanitize(key@).take(i as int),
        decreases n - i,
    {
        let c = cs[i];
        let d = if alnum_c(c) || c == '_' || c == '-' { c } else { '_' };
        push_char(&mut r, d);
        i += 1;
        assert(r@ =~= spec_sanitize(key@).take(i as int));
    }
    assert(spec_sanitize(key@).take(i as int) =~= spec_sanitize(key@));
    r
}

/// The file of the latency histogram of a template:
/// `latency_histogram_<sanitized key>.svg`.
pub fn latency_hist_file_name(key: &str) -> (r: String)
    ensures
        r@ == "latency_histogram_"@ + spec_sanitize(key@) + ".svg"@,
{
    let mut r = owned("latency_histogram_");
    r.append(sanitize_filename(key).as_str());
    r.append(".svg");
    r
}

/// A chart label of at most `max` characters: a longer name keeps its
/// first `max - 1` characters and ends with `…`.
pub open spec fn spec_truncate_label(name: Seq<char>, max: nat) -> Seq<char> {
    if name.len() <= max {
        name
    } else {
        name.take(max - 1).push('…')
    }
}

/// Shortens a template key or user name for a chart label; see
/// [`spec_truncate_label`].
pub fn truncate_label(name: &str, max_chars: usize) -> (r: String)
    requires
        max_chars >= 1 || name@.len() <= max_chars,
    ensures
        r@ == spec_truncate_label(name@, max_chars as nat),
{
    let cs = chars_of(name);
    if cs.len() <= max_chars {
        return owned(name);
    }
    let mut r = String::new();
    let mut i: usize = 0;
    while i < max_chars - 1
        invariant
            max_chars >= 1,
            max_chars < cs@.len(),
            cs@ == name@,
            i <= max_chars - 1,
            r@ == name@.take(i as int),
        decreases max_chars - 1 - i,
    {
        push_char(&mut r, cs[i]);
        i += 1;
        assert(r@ =~= name@.take(i as int));
    }
    push_char(&mut r, '…');
    r
}

/// A label is never longer than its limit, and a name within the limit is
/// its own label.
pub proof fn lemma_truncate_label_bounded(name: Seq<char>, max: nat)
    requires
        max >= 1,
    ensures
        spec_truncate_label(name, max).len() <= max,
        name.len() <= max ==> spec_truncate_label(name, max) == name,
{
}

/// Sanitising a sanitised name changes nothing.
pub proof fn lemma_sanitize_idempotent(key: Seq<char>)
    ensures
        spec_sanitize(spec_sanitize(key)) == spec_sanitize(key),
{
    let once = spec_sanitize(key);
    assert(spec_sanitize(once) =~= once);
}

} // verus!
