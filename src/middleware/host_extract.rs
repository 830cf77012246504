//! The host a request was addressed to, as proxies forward it.
use vstd::prelude::*;
use crate::text::{chars_of, string_of};

verus! {

/// The host of a request.
#[derive(Debug, Clone)]
pub struct Host(pub String);

impl Host {
    pub fn take_string(self) -> (r: String)
        ensures
            r == self.0,
    {
        self.0
    }
}

/// Whitespace as `str::trim` removes it from a header value.
pub open spec fn is_space(c: char) -> bool {
    c == ' ' || c == '\t' || c == '\n' || c == '\r' || c == '\x0b' || c == '\x0c'
}

/// The first position in `[lo, hi)` that holds `c`, or `hi`.
pub open spec fn first_index(s: Seq<char>, lo: int, hi: int, c: char) -> int
    decreases hi - lo,
{
    if lo >= hi {
        hi
    } else if s[lo] == c {
        lo
    } else {
        first_index(s, lo + 1, hi, c)
    }
}

/// The start of `[lo, hi)` once leading characters that `strip` holds are
/// removed.
pub open spec fn trim_lo(s: Seq<char>, lo: int, hi: int, quotes: bool) -> int
    decreases hi - lo,
{
    if lo < hi && (if quotes { s[lo] == '"' } else { is_space(s[lo]) }) {
        trim_lo(s, lo + 1, hi, quotes)
    } else {
        lo
    }
}

/// The end of `[lo, hi)` once trailing characters are removed: whitespace,
/// or quotes when `quotes` holds.
pub open spec fn trim_hi(s: Seq<char>, lo: int, hi: int, quotes: bool) -> int
    decreases hi - lo,
{
    if lo < hi && (if quotes { s[hi - 1] == '"' } else { is_space(s[hi - 1]) }) {
        trim_hi(s, lo, hi - 1, quotes)
    } else {
        hi
    }
}

pub open spec fn lower(c: char) -> char {
    if 'A' <= c && c <= 'Z' {
        ((c as u32) + 32) as char
    } else {
        c
    }
}

/// Whether `[lo, hi)` is `host`, in any case.
pub open spec fn is_host_key(s: Seq<char>, lo: int, hi: int) -> bool {
    &&& hi - lo == 4
    &&& lower(s[lo]) == 'h' && lower(s[lo + 1]) == 'o' && lower(s[lo + 2]) == 's' && lower(s[lo + 3]) == 't'
}

/// The value of the `host` pair in `[lo, hi)`, if it is one: the text after
/// the first `=`, trimmed, without surrounding quotes; its key trimmed is
/// `host` in any case.
pub open spec fn host_of_pair(s: Seq<char>, lo: int, hi: int) -> Option<Seq<char>> {
    let eq = first_index(s, lo, hi, '=');
    if eq < hi && is_host_key(s, trim_lo(s, lo, eq, false), trim_hi(s, trim_lo(s, lo, eq, false), eq, false)) {
        let vlo = trim_lo(s, eq + 1, hi, false);
        let vhi = trim_hi(s, vlo, hi, false);
        let qlo = trim_lo(s, vlo, vhi, true);
        let qhi = trim_hi(s, qlo, vhi, true);
        Some(s.subrange(qlo, qhi))
    } else {
        None
    }
}

/// The host named by the first `host` pair of the `;`-separated pairs in
/// `[lo, hi)`.
pub open spec fn host_in_pairs(s: Seq<char>, lo: int, hi: int) -> Option<Seq<char>>
    decreases hi - lo,
{
    let semi = first_index(s, lo, hi, ';');
    if lo > hi {
        None
    } else if host_of_pair(s, lo, semi) is Some {
        host_of_pair(s, lo, semi)
    } else if semi < hi {
        proof {
            lemma_first_index_bounds(s, lo, hi, ';');
        }
        host_in_pairs(s, semi + 1, hi)
    } else {
        None
    }
}

/// The host that a `Forwarded` header value names: the `host` pair of its
/// first element.
pub open spec fn forwarded_host(s: Seq<char>) -> Option<Seq<char>> {
    host_in_pairs(s, 0, first_index(s, 0, s.len() as int, ','))
}

pub proof fn lemma_first_index_bounds(s: Seq<char>, lo: int, hi: int, c: char)
    requires
        lo <= hi,
    ensures
        lo <= first_index(s, lo, hi, c) <= hi,
    decreases hi - lo,
{
    if lo < hi && s[lo] != c {
        lemma_first_index_bounds(s, lo + 1, hi, c);
    }
}

fn first_index_exec(s: &Vec<char>, lo: usize, hi: usize, c: char) -> (r: usize)
    requires
        lo <= hi <= s@.len(),
    ensures
        r as int == first_index(s@, lo as int, hi as int, c),
        lo <= r <= hi,
{
    let mut m = lo;
    while m < hi && s[m] != c
        invariant
            lo <= m <= hi,
            hi <= s@.len(),
            first_index(s@, m as int, hi as int, c) == first_index(s@, lo as int, hi as int, c),
        decreases hi - m,
    {
        m = m + 1;
    }
    m
}

fn is_space_exec(c: char, quotes: bool) -> (r: bool)
    ensures
        r == if quotes { c == '"' } else { is_space(c) },
{
    if quotes {
        c == '"'
    } else {
        c == ' ' || c == '\t' || c == '\n' || c == '\r' || c == '\x0b' || c == '\x0c'
    }
}

fn trim_lo_exec(s: &Vec<char>, lo: usize, hi: usize, quotes: bool) -> (r: usize)
    requires
        lo <= hi <= s@.len(),
    ensures
        r as int == trim_lo(s@, lo as int, hi as int, quotes),
        lo <= r <= hi,
{
    let mut m = lo;
    while m < hi && is_space_exec(s[m], quotes)
        invariant
            lo <= m <= hi,
            hi <= s@.len(),
            trim_lo(s@, m as int, hi as int, quotes) == trim_lo(s@, lo as int, hi as int, quotes),
        decreases hi - m,
    {
        m = m + 1;
    }
    m
}

fn trim_hi_exec(s: &Vec<char>, lo: usize, hi: usize, quotes: bool) -> (r: usize)
    requires
        lo <= hi <= s@.len(),
    ensures
        r as int == trim_hi(s@, lo as int, hi as int, quotes),
        lo <= r <= hi,
{
    let mut m = hi;
    while m > lo && is_space_exec(s[m - 1], quotes)
        invariant
            lo <= m <= hi,
            hi <= s@.len(),
            trim_hi(s@, lo as int, m as int, quotes) == trim_hi(s@, lo as int, hi as int, quotes),
        decreases m - lo,
    {
        m = m - 1;
    }
    m
}

fn lower_exec(c: char) -> (r: char)
    ensures
        r == lower(c),
{
    if 'A' <= c && c <= 'Z' {
        ((c as u32) + 32) as u8 as char
    } else {
        c
    }
}

fn host_of_pair_exec(s: &Vec<char>, lo: usize, hi: usize) -> (r: Option<Vec<char>>)
    requires
        lo <= hi <= s@.len(),
    ensures
        match r {
            Some(v) => host_of_pair(s@, lo as int, hi as int) == Some(v@),
            None => host_of_pair(s@, lo as int, hi as int) is None,
        },
{
    let eq = first_index_exec(s, lo, hi, '=');
    if eq >= hi {
        return None;
    }
    let klo = trim_lo_exec(s, lo, eq, false);
    let khi = trim_hi_exec(s, klo, eq, false);
    if !(khi - klo == 4 && lower_exec(s[klo]) == 'h' && lower_exec(s[klo + 1]) == 'o' && lower_exec(s[klo + 2]) == 's'
        && lower_exec(s[klo + 3]) == 't') {
        return None;
    }
    let vlo = trim_lo_exec(s, eq + 1, hi, false);
    let vhi = trim_hi_exec(s, vlo, hi, false);
    let qlo = trim_lo_exec(s, vlo, vhi, true);
    let qhi = trim_hi_exec(s, qlo, vhi, true);
    let mut v: Vec<char> = Vec::new();
    let mut m = qlo;
    while m < qhi
        invariant
            qlo <= m <= qhi,
            qhi <= s@.len(),
            v@ == s@.subrange(qlo as int, m as int),
        decreases qhi - m,
    {
        v.push(s[m]);
        assert(s@.subrange(qlo as int, m as int).push(s@[m as int]) =~= s@.subrange(qlo as int, m as int + 1));
        m = m + 1;
    }
    Some(v)
}

/// The host that a `Forwarded` header value names, as in
/// `Forwarded: for=1.2.3.4;host=example.com, for=5.6.7.8`.
pub fn parse_forwarded(value: &str) -> (r: Option<String>)
    ensures
        match r {
            Some(h) => forwarded_host(value@) == Some(h@),
            None => forwarded_host(value@) is None,
        },
{
    let s = chars_of(value);
    let end = first_index_exec(&s, 0, s.len(), ',');
    let mut lo: usize = 0;
    while lo <= end
        invariant
            lo <= end + 1,
            end <= s@.len(),
            end as int == first_index(s@, 0, s@.len() as int, ','),
            s@ == value@,
            host_in_pairs(s@, lo as int, end as int) == forwarded_host(value@),
        decreases end + 1 - lo,
    {
        let semi = first_index_exec(&s, lo, end, ';');
        match host_of_pair_exec(&s, lo, semi) {
            Some(h) => {
                return Some(string_of(h.as_slice()));
            },
            None => {},
        }
        if semi < end {
            lo = semi + 1;
        } else {
            return None;
        }
    }
    None
}

} // verus!
