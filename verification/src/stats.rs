//! The `stats` command: the fields records are grouped by, the time
//! buckets, and the bars of the bucket table.

use vstd::prelude::*;
use vstd::utf8::encode_utf8;
use vstd::string::StringSliceAdditionalSpecFns;
use crate::text::{push_char, str_eq};

verus! {

/// A dimension that records are grouped by.
#[derive(Debug, Clone, Copy, PartialEq, Eq, Structural)]
pub enum GroupBy {
    User,
    App,
    Ip,
}

/// The dimension named `s` (`user`, `app`, `ip`).
pub open spec fn spec_group_by(s: Seq<char>) -> Option<GroupBy> {
    if s == "user"@ {
        Some(GroupBy::User)
    } else if s == "app"@ {
        Some(GroupBy::App)
    } else if s == "ip"@ {
        Some(GroupBy::Ip)
    } else {
        None
    }
}

impl GroupBy {
    /// The dimension named `s`: `user`, `app` or `ip`.
    pub fn from_str(s: &str) -> (r: Option<GroupBy>)
        ensures
            r == spec_group_by(s@),
    {
        if str_eq(s, "user") {
            Some(GroupBy::User)
        } else if str_eq(s, "app") {
            Some(GroupBy::App)
        } else if str_eq(s, "ip") {
            Some(GroupBy::Ip)
        } else {
            None
        }
    }

    /// The column title of the dimension.
    pub fn label(self) -> (r: &'static str)
        ensures
            r@ == match self {
                GroupBy::User => "User"@,
                GroupBy::App => "App"@,
                GroupBy::Ip => "IP"@,
            },
    {
        match self {
            GroupBy::User => "User",
            GroupBy::App => "App",
            GroupBy::Ip => "IP",
        }
    }
}

/// The dimensions of `--group-by` in order, each once; `None` names an
/// unknown one.
pub open spec fn spec_group_fields(raw: Seq<Seq<char>>) -> Option<Seq<GroupBy>>
    decreases raw.len(),
{
    if raw.len() == 0 {
        Some(Seq::empty())
    } else {
        match spec_group_fields(raw.drop_last()) {
            None => None,
            Some(fs) => match spec_group_by(raw.last()) {
                None => None,
                Some(g) => if fs.contains(g) { Some(fs) } else { Some(fs.push(g)) },
            },
        }
    }
}

/// Parses `--group-by` values: each known dimension once, in the order of
/// first mention; `None` when one is unknown.
pub fn parse_group_fields(raw: &[String]) -> (r: Option<Vec<GroupBy>>)
    ensures
        match r {
            Some(v) => spec_group_fields(crate::filters::strings_view(raw@)) == Some(v@),
            None => spec_group_fields(crate::filters::strings_view(raw@)) is None,
        },
{
    let ghost rs = crate::filters::strings_view(raw@);
    let mut fields: Vec<GroupBy> = Vec::new();
    let mut i: usize = 0;
    while i < raw.len()
        invariant
            i <= raw.len(),
            rs == crate::filters::strings_view(raw@),
            spec_group_fields(rs.take(i as int)) == Some(fields@),
        decreases raw.len() - i,
    {
        assert(rs.take(i + 1).drop_last() =~= rs.take(i as int));
        assert(rs.take(i + 1).last() == raw@[i as int]@);
        match GroupBy::from_str(raw[i].as_str()) {
            Some(g) => {
                let mut seen = false;
                let mut k: usize = 0;
                while k < fields.len()
                    invariant
                        k <= fields.len(),
                        seen == exists|j: int| 0 <= j < k && fields@[j] == g,
                    decreases fields.len() - k,
                {
                    if fields[k] == g {
                        seen = true;
                    }
                    k += 1;
                }
                assert(seen == fields@.contains(g));
                if !seen {
                    fields.push(g);
                }
            },
            None => {
                proof {
                    lemma_group_fields_none(rs, i as int + 1);
                }
                return None;
            },
        }
        i += 1;
    }
    assert(rs.take(i as int) =~= rs);
    Some(fields)
}

/// Once an unknown dimension appears, the whole list is rejected.
proof fn lemma_group_fields_none(rs: Seq<Seq<char>>, n: int)
    requires
        0 <= n <= rs.len(),
        spec_group_fields(rs.take(n)) is None,
    ensures
        spec_group_fields(rs) is None,
    decreases rs.len() - n,
{
    if n < rs.len() {
        assert(rs.take(n + 1).drop_last() =~= rs.take(n));
        lemma_group_fields_none(rs, n + 1);
    } else {
        assert(rs.take(n) =~= rs);
    }
}

/// No dimension occurs twice in a parsed `--group-by` list.
pub proof fn lemma_group_fields_distinct(raw: Seq<Seq<char>>)
    requires
        spec_group_fields(raw) is Some,
    ensures
        forall|i: int, j: int|
            0 <= i < j < spec_group_fields(raw)->0.len() ==> spec_group_fields(raw)->0[i] != spec_group_fields(raw)->0[j],
    decreases raw.len(),
{
    if raw.len() > 0 {
        lemma_group_fields_distinct(raw.drop_last());
    }
}

/// The granularity of the time buckets.
#[derive(Debug, Clone, Copy, PartialEq, Eq, Structural)]
pub enum Bucket {
    Hour,
    Minute,
}

/// The granularity named `s` (`hour`, `minute`).
pub open spec fn spec_bucket(s: Seq<char>) -> Option<Bucket> {
    if s == "hour"@ {
        Some(Bucket::Hour)
    } else if s == "minute"@ {
        Some(Bucket::Minute)
    } else {
        None
    }
}

/// Bytes of a timestamp that name its bucket: `YYYY-MM-DD HH` or
/// `YYYY-MM-DD HH:MM`.
pub open spec fn bucket_len(b: Bucket) -> int {
    match b {
        Bucket::Hour => 13,
        Bucket::Minute => 16,
    }
}

impl Bucket {
    /// The granularity named `s`: `hour` or `minute`.
    pub fn from_str(s: &str) -> (r: Option<Bucket>)
        ensures
            r == spec_bucket(s@),
    {
        if str_eq(s, "hour") {
            Some(Bucket::Hour)
        } else if str_eq(s, "minute") {
            Some(Bucket::Minute)
        } else {
            None
        }
    }

    /// The name of the granularity.
    pub fn label(self) -> (r: &'static str)
        ensures
            r@ == match self {
                Bucket::Hour => "hour"@,
                Bucket::Minute => "minute"@,
            },
    {
        match self {
            Bucket::Hour => "hour",
            Bucket::Minute => "minute",
        }
    }

    /// The bucket of a timestamp: its first 13 (hour) or 16 (minute)
    /// bytes, or all of it when shorter.
    pub fn truncate(self, ts: &str) -> (r: &str)
        requires
            encode_utf8(ts@).len() <= usize::MAX,
            encode_utf8(ts@).len() <= bucket_len(self) || vstd::utf8::is_char_boundary(encode_utf8(ts@), bucket_len(self)),
        ensures
            encode_utf8(r@) == encode_utf8(ts@).take(
                if encode_utf8(ts@).len() < bucket_len(self) { encode_utf8(ts@).len() as int } else { bucket_len(self) },
            ),
    {
        let len: usize = match self {
            Bucket::Hour => 13,
            Bucket::Minute => 16,
        };
        let n = ts.len();
        assert(ts.spec_bytes() == encode_utf8(ts@));
        if n <= len {
            assert(encode_utf8(ts@).take(n as int) =~= encode_utf8(ts@));
            return ts;
        }
        let (head, _) = ts.split_at(len);
        head
    }
}

/// Width of a full bar.
pub const BAR_WIDTH: usize = 20;

/// Cells of the bar of `count` against `max_count`:
/// `min(count, max) * BAR_WIDTH / max`.
pub open spec fn bar_cells(count: u64, max_count: u64) -> int {
    if max_count == 0 {
        0
    } else {
        let c = if count < max_count { count as int } else { max_count as int };
        (c * BAR_WIDTH as int) / (max_count as int)
    }
}

/// A bar of `█` proportional to `count / max_count`, `BAR_WIDTH` wide
/// when full; empty when `max_count` is 0.
pub fn make_bar(count: u64, max_count: u64) -> (r: String)
    requires
        (if count < max_count { count as int } else { max_count as int }) * BAR_WIDTH as int <= u64::MAX,
    ensures
        r@ == Seq::new(bar_cells(count, max_count) as nat, |i: int| '█'),
        bar_cells(count, max_count) <= BAR_WIDTH,
{
    let mut r = String::new();
    if max_count == 0 {
        assert(r@ =~= Seq::new(0, |i: int| '█'));
        return r;
    }
    let c: u64 = if count < max_count { count } else { max_count };
    let filled: u64 = c * 20 / max_count;
    assert(filled <= 20) by (nonlinear_arith)
        requires
            c <= max_count,
            max_count > 0,
            filled == (c * 20) as int / max_count as int,
    ;
    let mut i: u64 = 0;
    while i < filled
        invariant
            i <= filled,
            r@ == Seq::new(i as nat, |k: int| '█'),
        decreases filled - i,
    {
        push_char(&mut r, '█');
        i += 1;
        assert(r@ =~= Seq::new(i as nat, |k: int| '█'));
    }
    r
}

/// A larger count never gets a shorter bar.
pub proof fn lemma_bar_monotone(c1: u64, c2: u64, max_count: u64)
    requires
        c1 <= c2,
    ensures
        bar_cells(c1, max_count) <= bar_cells(c2, max_count),
{
    if max_count > 0 {
        let a: int = if c1 < max_count { c1 as int } else { max_count as int };
        let b: int = if c2 < max_count { c2 as int } else { max_count as int };
        assert(a <= b);
        assert((a * 20) / (max_count as int) <= (b * 20) / (max_count as int)) by (nonlinear_arith)
            requires
                a <= b,
                0 <= a,
                max_count > 0,
        ;
    }
}

} // verus!
