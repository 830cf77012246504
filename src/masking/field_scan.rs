//! The grammar of a masked field in a JSON text, and a scanner that rewrites
//! the value of every such field.
//!
//! A field of name `n` is the key `"n":`, any number of spaces, and a value:
//! a JSON string (up to its unescaped closing quote, on one line) for string
//! rules, or a number literal (an optional minus sign, digits and an optional
//! fraction, not followed by another `.` or an exponent) for number rules.
//! The scan goes from left to right; where a field of one of the configured
//! names starts, the first such name in configuration order wins, its value
//! is replaced and the scan resumes after the value. Keys are matched by name
//! wherever they stand, so the text is never parsed as a tree.
use vstd::prelude::*;
pub use crate::text::is_digit;

verus! {

/// Whether a rule set masks string values or number values.
#[derive(Clone, Copy, PartialEq, Eq, Debug)]
pub enum ValueKind {
    Text,
    Number,
}

/// Whether `t` holds the key `"name":` at `i`.
pub open spec fn key_at(t: Seq<char>, i: int, name: Seq<char>) -> bool {
    &&& 0 <= i
    &&& i + name.len() + 3 <= t.len()
    &&& t[i] == '"'
    &&& t.subrange(i + 1, i + 1 + name.len()) == name
    &&& t[i + 1 + name.len()] == '"'
    &&& t[i + 2 + name.len()] == ':'
}

/// The first position at or after `j` that does not hold a space.
pub open spec fn skip_spaces(t: Seq<char>, j: int) -> int
    decreases t.len() - j,
{
    if 0 <= j < t.len() && t[j] == ' ' {
        skip_spaces(t, j + 1)
    } else {
        j
    }
}

/// The position after the closing quote of a string whose contents start at
/// `k`; `None` where the string is not closed on its line.
pub open spec fn string_close(t: Seq<char>, k: int) -> Option<int>
    decreases t.len() + 1 - k,
{
    if k < 0 || k >= t.len() {
        None
    } else if t[k] == '"' {
        Some(k + 1)
    } else if t[k] == '\n' {
        None
    } else if t[k] == '\\' {
        string_close(t, k + 2)
    } else {
        string_close(t, k + 1)
    }
}

/// The first position at or after `j` that does not hold a digit.
pub open spec fn digits_end(t: Seq<char>, j: int) -> int
    decreases t.len() - j,
{
    if 0 <= j < t.len() && is_digit(t[j]) {
        digits_end(t, j + 1)
    } else {
        j
    }
}

/// The end of the number literal that starts at `j`, if one does.
pub open spec fn number_end(t: Seq<char>, j: int) -> Option<int> {
    let k = if 0 <= j < t.len() && t[j] == '-' { j + 1 } else { j };
    let m = digits_end(t, k);
    if m == k {
        None
    } else {
        let e = if m < t.len() && t[m] == '.' { digits_end(t, m + 1) } else { m };
        if e < t.len() && (t[e] == '.' || t[e] == 'e' || t[e] == 'E') {
            None
        } else {
            Some(e)
        }
    }
}

/// The end of the value of the given kind that starts at `j`, if one does.
pub open spec fn value_end(t: Seq<char>, j: int, kind: ValueKind) -> Option<int> {
    match kind {
        ValueKind::Text => if 0 <= j < t.len() && t[j] == '"' {
            string_close(t, j + 1)
        } else {
            None
        },
        ValueKind::Number => number_end(t, j),
    }
}

/// The span `(start, end)` of the value of a field `name` whose key is at `i`.
pub open spec fn field_at(t: Seq<char>, i: int, name: Seq<char>, kind: ValueKind) -> Option<(int, int)> {
    if key_at(t, i, name) {
        let vs = skip_spaces(t, i + name.len() + 3);
        match value_end(t, vs, kind) {
            Some(ve) => Some((vs, ve)),
            None => None,
        }
    } else {
        None
    }
}

/// The first name from position `k` on whose field starts at `i`, with the
/// span of its value.
pub open spec fn first_field(t: Seq<char>, i: int, names: Seq<Seq<char>>, kind: ValueKind, k: int) -> Option<(int, int, int)>
    decreases names.len() - k,
{
    if k < 0 || k >= names.len() {
        None
    } else {
        match field_at(t, i, names[k], kind) {
            Some((vs, ve)) => Some((k, vs, ve)),
            None => first_field(t, i, names, kind, k + 1),
        }
    }
}

pub proof fn lemma_skip_spaces_bounds(t: Seq<char>, j: int)
    requires
        0 <= j,
    ensures
        j <= skip_spaces(t, j),
        j <= t.len() ==> skip_spaces(t, j) <= t.len(),
        forall|m: int| j <= m < skip_spaces(t, j) ==> t[m] == ' ',
        skip_spaces(t, j) < t.len() ==> t[skip_spaces(t, j)] != ' ',
    decreases t.len() - j,
{
    if 0 <= j < t.len() && t[j] == ' ' {
        lemma_skip_spaces_bounds(t, j + 1);
    }
}

pub proof fn lemma_string_close_bounds(t: Seq<char>, k: int)
    ensures
        string_close(t, k) matches Some(e) ==> k < e <= t.len() && t[e - 1] == '"',
    decreases t.len() + 1 - k,
{
    if k < 0 || k >= t.len() {
    } else if t[k] == '"' {
    } else if t[k] == '\n' {
    } else if t[k] == '\\' {
        lemma_string_close_bounds(t, k + 2);
    } else {
        lemma_string_close_bounds(t, k + 1);
    }
}

pub proof fn lemma_digits_end_bounds(t: Seq<char>, j: int)
    requires
        0 <= j,
    ensures
        j <= digits_end(t, j),
        j <= t.len() ==> digits_end(t, j) <= t.len(),
        forall|m: int| j <= m < digits_end(t, j) ==> is_digit(t[m]),
        digits_end(t, j) < t.len() ==> !is_digit(t[digits_end(t, j)]),
    decreases t.len() - j,
{
    if 0 <= j < t.len() && is_digit(t[j]) {
        lemma_digits_end_bounds(t, j + 1);
    }
}

pub proof fn lemma_value_end_bounds(t: Seq<char>, j: int, kind: ValueKind)
    requires
        0 <= j <= t.len(),
    ensures
        value_end(t, j, kind) matches Some(e) ==> j < e <= t.len(),
{
    match kind {
        ValueKind::Text => {
            lemma_string_close_bounds(t, j + 1);
        },
        ValueKind::Number => {
            let k = if 0 <= j < t.len() && t[j] == '-' { j + 1 } else { j };
            lemma_digits_end_bounds(t, k);
            let m = digits_end(t, k);
            if m < t.len() && t[m] == '.' {
                lemma_digits_end_bounds(t, m + 1);
            }
        },
    }
}

pub proof fn lemma_first_field_bounds(t: Seq<char>, i: int, names: Seq<Seq<char>>, kind: ValueKind, k: int)
    ensures
        first_field(t, i, names, kind, k) matches Some((f, vs, ve)) ==> {
            &&& k <= f < names.len()
            &&& k >= 0
            &&& field_at(t, i, names[f], kind) == Some((vs, ve))
            &&& key_at(t, i, names[f])
            &&& vs == skip_spaces(t, i + names[f].len() + 3)
            &&& i + names[f].len() + 3 <= vs < ve <= t.len()
        },
    decreases names.len() - k,
{
    if k < 0 || k >= names.len() {
    } else {
        match field_at(t, i, names[k], kind) {
            Some((vs, ve)) => {
                let j = i + names[k].len() + 3;
                lemma_skip_spaces_bounds(t, j);
                lemma_value_end_bounds(t, vs, kind);
            },
            None => {
                lemma_first_field_bounds(t, i, names, kind, k + 1);
            },
        }
    }
}

/// The text from position `i` on, with the value of every field of a
/// configured name replaced: the `k`-th name's value by `repls[k]`.
pub open spec fn masked_from(t: Seq<char>, i: int, names: Seq<Seq<char>>, kind: ValueKind, repls: Seq<Seq<char>>) -> Seq<char>
    decreases t.len() - i,
{
    if i < 0 || i >= t.len() {
        Seq::empty()
    } else {
        match first_field(t, i, names, kind, 0) {
            Some((k, vs, ve)) => {
                proof {
                    lemma_first_field_bounds(t, i, names, kind, 0);
                }
                t.subrange(i, vs) + repls[k] + masked_from(t, ve, names, kind, repls)
            },
            None => seq![t[i]] + masked_from(t, i + 1, names, kind, repls),
        }
    }
}

/// The views of a list of character vectors.
pub open spec fn views_of(v: Seq<Vec<char>>) -> Seq<Seq<char>> {
    v.map_values(|x: Vec<char>| x@)
}


fn is_digit_char(c: char) -> (r: bool)
    ensures
        r == is_digit(c),
{
    '0' <= c && c <= '9'
}

/// Whether `t` holds the key `"name":` at `i`.
pub fn key_at_exec(t: &Vec<char>, i: usize, name: &Vec<char>) -> (r: bool)
    ensures
        r == key_at(t@, i as int, name@),
{
    if i >= t.len() || name.len() > t.len() - i || t.len() - i - name.len() < 3 {
        return false;
    }
    if t[i] != '"' {
        return false;
    }
    let mut m: usize = 0;
    while m < name.len()
        invariant
            i + name@.len() + 3 <= t@.len(),
            t@.len() <= usize::MAX,
            m <= name@.len(),
            forall|q: int| 0 <= q < m ==> t@[i + 1 + q] == name@[q],
        decreases name@.len() - m,
    {
        assert(i + 1 + m < t@.len());
        if t[i + 1 + m] != name[m] {
            assert(t@.subrange(i + 1, i + 1 + name@.len())[m as int] == t@[i + 1 + m]);
            return false;
        }
        m = m + 1;
    }
    assert(t@.subrange(i + 1, i + 1 + name@.len()) =~= name@);
    t[i + 1 + name.len()] == '"' && t[i + 2 + name.len()] == ':'
}

/// The first position at or after `j` that does not hold a space.
pub fn skip_spaces_exec(t: &Vec<char>, j: usize) -> (r: usize)
    requires
        j <= t@.len(),
    ensures
        r as int == skip_spaces(t@, j as int),
{
    let mut m = j;
    while m < t.len() && t[m] == ' '
        invariant
            j <= m <= t@.len(),
            skip_spaces(t@, m as int) == skip_spaces(t@, j as int),
        decreases t@.len() - m,
    {
        m = m + 1;
    }
    m
}

/// The position after the closing quote of the string whose contents start
/// at `k`.
pub fn string_close_exec(t: &Vec<char>, k: usize) -> (r: Option<usize>)
    requires
        k <= t@.len(),
    ensures
        match r {
            Some(e) => string_close(t@, k as int) == Some(e as int),
            None => string_close(t@, k as int) is None,
        },
{
    let mut m = k;
    while m < t.len()
        invariant
            k <= m,
            m <= t@.len() + 1,
            string_close(t@, m as int) == string_close(t@, k as int),
        decreases t@.len() + 1 - m,
    {
        let c = t[m];
        if c == '"' {
            return Some(m + 1);
        } else if c == '\n' {
            return None;
        } else if c == '\\' {
            if m + 1 < t.len() {
                m = m + 2;
            } else {
                assert(string_close(t@, m + 2) is None);
                return None;
            }
        } else {
            m = m + 1;
        }
    }
    None
}

/// The first position at or after `j` that does not hold a digit.
pub fn digits_end_exec(t: &Vec<char>, j: usize) -> (r: usize)
    requires
        j <= t@.len(),
    ensures
        r as int == digits_end(t@, j as int),
        r <= t@.len(),
{
    let mut m = j;
    while m < t.len() && is_digit_char(t[m])
        invariant
            j <= m <= t@.len(),
            digits_end(t@, m as int) == digits_end(t@, j as int),
        decreases t@.len() - m,
    {
        m = m + 1;
    }
    m
}

/// The end of the value of the given kind that starts at `j`, if one does.
pub fn value_end_exec(t: &Vec<char>, j: usize, kind: ValueKind) -> (r: Option<usize>)
    requires
        j <= t@.len(),
    ensures
        match r {
            Some(e) => value_end(t@, j as int, kind) == Some(e as int),
            None => value_end(t@, j as int, kind) is None,
        },
{
    match kind {
        ValueKind::Text => {
            if j < t.len() && t[j] == '"' {
                string_close_exec(t, j + 1)
            } else {
                None
            }
        },
        ValueKind::Number => {
            let k = if j < t.len() && t[j] == '-' { j + 1 } else { j };
            let m = digits_end_exec(t, k);
            if m == k {
                None
            } else {
                let e = if m < t.len() && t[m] == '.' { digits_end_exec(t, m + 1) } else { m };
                if e < t.len() && (t[e] == '.' || t[e] == 'e' || t[e] == 'E') {
                    None
                } else {
                    Some(e)
                }
            }
        },
    }
}

/// The first name from position `k` on whose field starts at `i`, with the
/// span of its value.
pub fn first_field_exec(t: &Vec<char>, i: usize, names: &Vec<Vec<char>>, kind: ValueKind) -> (r: Option<(usize, usize, usize)>)
    requires
        i < t@.len(),
    ensures
        match r {
            Some((f, vs, ve)) => first_field(t@, i as int, views_of(names@), kind, 0) == Some((f as int, vs as int, ve as int)),
            None => first_field(t@, i as int, views_of(names@), kind, 0) is None,
        },
{
    let ghost ns = views_of(names@);
    let _ = t.len();
    let mut k: usize = 0;
    while k < names.len()
        invariant
            ns == views_of(names@),
            k <= names@.len(),
            i < t@.len(),
            t@.len() <= usize::MAX,
            first_field(t@, i as int, ns, kind, 0) == first_field(t@, i as int, ns, kind, k as int),
        decreases names@.len() - k,
    {
        let name = &names[k];
        assert(ns[k as int] == name@);
        if key_at_exec(t, i, name) {
            assert(i + name@.len() + 3 <= t@.len());
            let vs = skip_spaces_exec(t, i + name.len() + 3);
            proof {
                lemma_skip_spaces_bounds(t@, i + name@.len() + 3);
            }
            match value_end_exec(t, vs, kind) {
                Some(ve) => {
                    return Some((k, vs, ve));
                },
                None => {},
            }
        }
        k = k + 1;
    }
    None
}

/// The text `t` with the value of every field of a configured name
/// replaced: the `k`-th name's value by `repls[k]`.
pub fn mask_fields(t: &Vec<char>, names: &Vec<Vec<char>>, kind: ValueKind, repls: &Vec<Vec<char>>) -> (r: Vec<char>)
    requires
        repls@.len() == names@.len(),
    ensures
        r@ == masked_from(t@, 0, views_of(names@), kind, views_of(repls@)),
{
    let ghost ns = views_of(names@);
    let ghost rs = views_of(repls@);
    let mut out: Vec<char> = Vec::new();
    let mut i: usize = 0;
    while i < t.len()
        invariant
            ns == views_of(names@),
            rs == views_of(repls@),
            repls@.len() == names@.len(),
            i <= t@.len(),
            out@ + masked_from(t@, i as int, ns, kind, rs) == masked_from(t@, 0, ns, kind, rs),
        decreases t@.len() - i,
    {
        proof {
            lemma_first_field_bounds(t@, i as int, ns, kind, 0);
        }
        match first_field_exec(t, i, names, kind) {
            Some((k, vs, ve)) => {
                let ghost before = out@;
                let mut m = i;
                while m < vs
                    invariant
                        i <= m <= vs,
                        vs <= t@.len(),
                        out@ == before + t@.subrange(i as int, m as int),
                    decreases vs - m,
                {
                    out.push(t[m]);
                    assert(t@.subrange(i as int, m as int).push(t@[m as int]) =~= t@.subrange(i as int, m as int + 1));
                    m = m + 1;
                }
                let repl = &repls[k];
                assert(rs[k as int] == repl@);
                let ghost mid = out@;
                let mut q: usize = 0;
                while q < repl.len()
                    invariant
                        q <= repl@.len(),
                        out@ == mid + repl@.take(q as int),
                    decreases repl@.len() - q,
                {
                    out.push(repl[q]);
                    assert(repl@.take(q as int).push(repl@[q as int]) =~= repl@.take(q as int + 1));
                    q = q + 1;
                }
                assert(repl@.take(repl@.len() as int) =~= repl@);
                assert(out@ + masked_from(t@, ve as int, ns, kind, rs) =~= before + masked_from(t@, i as int, ns, kind, rs));
                i = ve;
            },
            None => {
                let ghost before = out@;
                out.push(t[i]);
                assert(out@ + masked_from(t@, i + 1, ns, kind, rs) =~= before + masked_from(t@, i as int, ns, kind, rs));
                i = i + 1;
            },
        }
    }
    assert(out@ + masked_from(t@, i as int, ns, kind, rs) =~= out@);
    out
}

} // verus!
