//! Normalisation of route templates to the `{name}` form.
//!
//! Frameworks write route parameters as `:name` or `{name}` and wildcards as
//! `*`. A scan from left to right rewrites, at each position, the first of
//! these forms that starts there:
//! - `{name}/` stays as it is;
//! - `:name/` (a non-empty name up to the next `/`) becomes `{name}/`;
//! - `:name` at the end of the line becomes `{name}`;
//! - `*` becomes `{wildcard}`.
//! Any other text, such as `<name>`, is kept.
use vstd::prelude::*;
use crate::text::{chars_of, string_of};

verus! {

/// The position of the first `}` directly followed by `/`, at or after `k`,
/// on the same line.
pub open spec fn brace_slash_from(t: Seq<char>, k: int) -> Option<int>
    decreases t.len() - k,
{
    if k < 0 || k >= t.len() || t[k] == '\n' {
        None
    } else if t[k] == '}' && k + 1 < t.len() && t[k + 1] == '/' {
        Some(k)
    } else {
        brace_slash_from(t, k + 1)
    }
}

/// The position of the first `/` at or after `k`, on the same line.
pub open spec fn slash_from(t: Seq<char>, k: int) -> Option<int>
    decreases t.len() - k,
{
    if k < 0 || k >= t.len() || t[k] == '\n' {
        None
    } else if t[k] == '/' {
        Some(k)
    } else {
        slash_from(t, k + 1)
    }
}

/// The end of the line that holds `k`.
pub open spec fn line_end(t: Seq<char>, k: int) -> int
    decreases t.len() - k,
{
    if k < 0 || k >= t.len() || t[k] == '\n' {
        k
    } else {
        line_end(t, k + 1)
    }
}

pub open spec fn wildcard() -> Seq<char> {
    seq!['{', 'w', 'i', 'l', 'd', 'c', 'a', 'r', 'd', '}']
}

/// The form that starts at `i`, if any: the text that replaces it and the
/// position after it.
pub open spec fn form_at(t: Seq<char>, i: int) -> Option<(Seq<char>, int)> {
    if i < 0 || i >= t.len() {
        None
    } else if t[i] == '{' && brace_slash_from(t, i + 1) is Some {
        let e = brace_slash_from(t, i + 1)->0;
        Some((t.subrange(i, e + 2), e + 2))
    } else if t[i] == ':' && i + 1 < t.len() && t[i + 1] != '\n' && slash_from(t, i + 2) is Some {
        let e = slash_from(t, i + 2)->0;
        Some((seq!['{'] + t.subrange(i + 1, e) + seq!['}', '/'], e + 1))
    } else if t[i] == ':' {
        let n = line_end(t, i + 1);
        Some((seq!['{'] + t.subrange(i + 1, n) + seq!['}'], n))
    } else if t[i] == '*' {
        Some((wildcard(), i + 1))
    } else {
        None
    }
}

pub proof fn lemma_brace_slash_bounds(t: Seq<char>, k: int)
    ensures
        brace_slash_from(t, k) matches Some(e) ==> k <= e && e + 2 <= t.len(),
    decreases t.len() - k,
{
    if !(k < 0 || k >= t.len() || t[k] == '\n') && !(t[k] == '}' && k + 1 < t.len() && t[k + 1] == '/') {
        lemma_brace_slash_bounds(t, k + 1);
    }
}

pub proof fn lemma_slash_bounds(t: Seq<char>, k: int)
    ensures
        slash_from(t, k) matches Some(e) ==> k <= e < t.len(),
    decreases t.len() - k,
{
    if !(k < 0 || k >= t.len() || t[k] == '\n') && t[k] != '/' {
        lemma_slash_bounds(t, k + 1);
    }
}

pub proof fn lemma_line_end_bounds(t: Seq<char>, k: int)
    requires
        0 <= k <= t.len(),
    ensures
        k <= line_end(t, k) <= t.len(),
    decreases t.len() - k,
{
    if !(k < 0 || k >= t.len() || t[k] == '\n') {
        lemma_line_end_bounds(t, k + 1);
    }
}

pub proof fn lemma_form_bounds(t: Seq<char>, i: int)
    ensures
        form_at(t, i) matches Some((_, e)) ==> i < e <= t.len(),
{
    if 0 <= i < t.len() {
        lemma_brace_slash_bounds(t, i + 1);
        lemma_slash_bounds(t, i + 2);
        lemma_line_end_bounds(t, i + 1);
    }
}

/// The template from position `i` on, normalised.
pub open spec fn normalized_from(t: Seq<char>, i: int) -> Seq<char>
    decreases t.len() - i,
{
    if i < 0 || i >= t.len() {
        Seq::empty()
    } else {
        match form_at(t, i) {
            Some((out, e)) => {
                proof {
                    lemma_form_bounds(t, i);
                }
                out + normalized_from(t, e)
            },
            None => seq![t[i]] + normalized_from(t, i + 1),
        }
    }
}

/// The normalised template.
pub open spec fn normalized(t: Seq<char>) -> Seq<char> {
    normalized_from(t, 0)
}

fn brace_slash_from_exec(t: &Vec<char>, k: usize) -> (r: Option<usize>)
    requires
        k <= t@.len(),
    ensures
        match r {
            Some(e) => brace_slash_from(t@, k as int) == Some(e as int),
            None => brace_slash_from(t@, k as int) is None,
        },
{
    let mut m = k;
    while m < t.len() && t[m] != '\n'
        invariant
            k <= m <= t@.len(),
            brace_slash_from(t@, m as int) == brace_slash_from(t@, k as int),
        decreases t@.len() - m,
    {
        if t[m] == '}' && m + 1 < t.len() && t[m + 1] == '/' {
            return Some(m);
        }
        m = m + 1;
    }
    None
}

fn slash_from_exec(t: &Vec<char>, k: usize) -> (r: Option<usize>)
    requires
        k <= t@.len(),
    ensures
        match r {
            Some(e) => slash_from(t@, k as int) == Some(e as int),
            None => slash_from(t@, k as int) is None,
        },
{
    let mut m = k;
    while m < t.len() && t[m] != '\n'
        invariant
            k <= m <= t@.len(),
            slash_from(t@, m as int) == slash_from(t@, k as int),
        decreases t@.len() - m,
    {
        if t[m] == '/' {
            return Some(m);
        }
        m = m + 1;
    }
    None
}

fn line_end_exec(t: &Vec<char>, k: usize) -> (r: usize)
    requires
        k <= t@.len(),
    ensures
        r as int == line_end(t@, k as int),
{
    let mut m = k;
    while m < t.len() && t[m] != '\n'
        invariant
            k <= m <= t@.len(),
            line_end(t@, m as int) == line_end(t@, k as int),
        decreases t@.len() - m,
    {
        m = m + 1;
    }
    m
}

fn push_range(out: &mut Vec<char>, t: &Vec<char>, from: usize, to: usize)
    requires
        from <= to <= t@.len(),
    ensures
        final(out)@ == old(out)@ + t@.subrange(from as int, to as int),
{
    let mut m = from;
    while m < to
        invariant
            from <= m <= to,
            to <= t@.len(),
            out@ == old(out)@ + t@.subrange(from as int, m as int),
        decreases to - m,
    {
        out.push(t[m]);
        assert(t@.subrange(from as int, m as int).push(t@[m as int]) =~= t@.subrange(from as int, m as int + 1));
        m = m + 1;
    }
}

/// The template with every `:name` and `*` rewritten to the `{name}` form.
pub fn normalize_path_hint(path_hint: String) -> (r: String)
    ensures
        r@ == normalized(path_hint@),
{
    let t = chars_of(path_hint.as_str());
    let mut out: Vec<char> = Vec::new();
    let mut i: usize = 0;
    while i < t.len()
        invariant
            i <= t@.len(),
            out@ + normalized_from(t@, i as int) == normalized(t@),
        decreases t@.len() - i,
    {
        let ghost before = out@;
        proof {
            lemma_form_bounds(t@, i as int);
            lemma_brace_slash_bounds(t@, i + 1);
            lemma_slash_bounds(t@, i + 2);
            lemma_line_end_bounds(t@, i + 1);
        }
        let c = t[i];
        let brace = if c == '{' { brace_slash_from_exec(&t, i + 1) } else { None };
        let slash = if c == ':' && i + 1 < t.len() && t[i + 1] != '\n' { slash_from_exec(&t, i + 2) } else { None };
        if c == '{' && brace.is_some() {
            let e = brace.unwrap();
            push_range(&mut out, &t, i, e + 2);
            assert(out@ + normalized_from(t@, e + 2) =~= before + normalized_from(t@, i as int));
            i = e + 2;
        } else if c == ':' && slash.is_some() {
            let e = slash.unwrap();
            out.push('{');
            push_range(&mut out, &t, i + 1, e);
            out.push('}');
            out.push('/');
            assert(out@ + normalized_from(t@, e + 1) =~= before + normalized_from(t@, i as int));
            i = e + 1;
        } else if c == ':' {
            let n = line_end_exec(&t, i + 1);
            out.push('{');
            push_range(&mut out, &t, i + 1, n);
            out.push('}');
            assert(out@ + normalized_from(t@, n as int) =~= before + normalized_from(t@, i as int));
            i = n;
        } else if c == '*' {
            let w = chars_of("{wildcard}");
            proof {
                reveal_strlit("{wildcard}");
            }
            assert(w@ =~= wildcard());
            push_range(&mut out, &w, 0, w.len());
            assert(w@.subrange(0, w@.len() as int) =~= w@);
            assert(out@ + normalized_from(t@, i + 1) =~= before + normalized_from(t@, i as int));
            i = i + 1;
        } else {
            out.push(c);
            assert(out@ + normalized_from(t@, i + 1) =~= before + normalized_from(t@, i as int));
            i = i + 1;
        }
    }
    assert(out@ + normalized_from(t@, i as int) =~= out@);
    string_of(out.as_slice())
}

} // verus!
