//! Masking twice with the same rules gives what masking once gave.
use vstd::prelude::*;
use super::field_scan::{
    digits_end, field_at, first_field, is_digit, key_at, lemma_digits_end_bounds, lemma_first_field_bounds,
    lemma_skip_spaces_bounds, lemma_string_close_bounds, lemma_value_end_bounds, masked_from, number_end,
    skip_spaces, string_close, value_end, ValueKind,
};
use super::body_mask::{apply_rules, number_repls, string_repls, BodyMask};
use super::fields::quoted;
use super::option::{assoc_lookup, default_string_mask, NumberMaskingOption, StringMaskingOption};
use crate::text::{decimal, digits};
use super::isolation::{
    agree_below, lemma_field_at_agree, lemma_number_no_quote, lemma_string_interior, lemma_string_over_plain, plain_name,
};

verus! {

proof fn lemma_shift_skip_spaces(x: Seq<char>, s: Seq<char>, j: int)
    requires
        0 <= j,
    ensures
        skip_spaces(x + s, x.len() + j) == skip_spaces(s, j) + x.len(),
    decreases s.len() - j,
{
    let t = x + s;
    if j < s.len() {
        assert(t[x.len() + j] == s[j]);
        if s[j] == ' ' {
            lemma_shift_skip_spaces(x, s, j + 1);
        }
    }
}

proof fn lemma_shift_string_close(x: Seq<char>, s: Seq<char>, k: int)
    requires
        0 <= k,
    ensures
        string_close(x + s, x.len() + k) == match string_close(s, k) {
            Some(e) => Some(e + x.len()),
            None => None::<int>,
        },
    decreases s.len() + 1 - k,
{
    let t = x + s;
    if k < s.len() {
        assert(t[x.len() + k] == s[k]);
        if s[k] == '\\' {
            lemma_shift_string_close(x, s, k + 2);
        } else if s[k] != '"' && s[k] != '\n' {
            lemma_shift_string_close(x, s, k + 1);
        }
    }
}

proof fn lemma_shift_digits_end(x: Seq<char>, s: Seq<char>, j: int)
    requires
        0 <= j,
    ensures
        digits_end(x + s, x.len() + j) == digits_end(s, j) + x.len(),
    decreases s.len() - j,
{
    let t = x + s;
    if j < s.len() {
        assert(t[x.len() + j] == s[j]);
        if is_digit(s[j]) {
            lemma_shift_digits_end(x, s, j + 1);
        }
    }
}

proof fn lemma_shift_value_end(x: Seq<char>, s: Seq<char>, j: int, kind: ValueKind)
    requires
        0 <= j,
    ensures
        value_end(x + s, x.len() + j, kind) == match value_end(s, j, kind) {
            Some(e) => Some(e + x.len()),
            None => None::<int>,
        },
{
    let t = x + s;
    let d = x.len() as int;
    if j < s.len() {
        assert(t[d + j] == s[j]);
    }
    match kind {
        ValueKind::Text => {
            lemma_shift_string_close(x, s, j + 1);
        },
        ValueKind::Number => {
            let k = if 0 <= j < s.len() && s[j] == '-' { j + 1 } else { j };
            lemma_shift_digits_end(x, s, k);
            lemma_digits_end_bounds(s, k);
            let m = digits_end(s, k);
            if m < s.len() {
                assert(t[d + m] == s[m]);
                if s[m] == '.' {
                    lemma_shift_digits_end(x, s, m + 1);
                    lemma_digits_end_bounds(s, m + 1);
                    let e = digits_end(s, m + 1);
                    if e < s.len() {
                        assert(t[d + e] == s[e]);
                    }
                }
            }
        },
    }
}

proof fn lemma_shift_key_at(x: Seq<char>, s: Seq<char>, i: int, name: Seq<char>)
    requires
        0 <= i,
    ensures
        key_at(x + s, x.len() + i, name) == key_at(s, i, name),
{
    let t = x + s;
    let d = x.len() as int;
    if i + name.len() + 3 <= s.len() {
        assert(t[d + i] == s[i]);
        assert(t[d + i + 1 + name.len()] == s[i + 1 + name.len()]);
        assert(t[d + i + 2 + name.len()] == s[i + 2 + name.len()]);
        assert(t.subrange(d + i + 1, d + i + 1 + name.len()) =~= s.subrange(i + 1, i + 1 + name.len()));
    }
}

proof fn lemma_shift_field_at(x: Seq<char>, s: Seq<char>, i: int, name: Seq<char>, kind: ValueKind)
    requires
        0 <= i,
    ensures
        field_at(x + s, x.len() + i, name, kind) == match field_at(s, i, name, kind) {
            Some((vs, ve)) => Some((vs + x.len(), ve + x.len())),
            None => None::<(int, int)>,
        },
{
    lemma_shift_key_at(x, s, i, name);
    lemma_shift_skip_spaces(x, s, i + name.len() + 3);
    lemma_skip_spaces_bounds(s, i + name.len() + 3);
    lemma_shift_value_end(x, s, skip_spaces(s, i + name.len() + 3), kind);
}

proof fn lemma_shift_first_field(x: Seq<char>, s: Seq<char>, i: int, names: Seq<Seq<char>>, kind: ValueKind, k: int)
    requires
        0 <= i,
    ensures
        first_field(x + s, x.len() + i, names, kind, k) == match first_field(s, i, names, kind, k) {
            Some((f, vs, ve)) => Some((f, vs + x.len(), ve + x.len())),
            None => None::<(int, int, int)>,
        },
    decreases names.len() - k,
{
    if 0 <= k < names.len() {
        lemma_shift_field_at(x, s, i, names[k], kind);
        lemma_shift_first_field(x, s, i, names, kind, k + 1);
    }
}

/// Masking from a position after a prefix is masking the rest alone.
proof fn lemma_shift_masked(x: Seq<char>, s: Seq<char>, i: int, names: Seq<Seq<char>>, kind: ValueKind, repls: Seq<Seq<char>>)
    requires
        0 <= i,
    ensures
        masked_from(x + s, x.len() + i, names, kind, repls) == masked_from(s, i, names, kind, repls),
    decreases s.len() - i,
{
    let t = x + s;
    let d = x.len() as int;
    if i < s.len() {
        lemma_shift_first_field(x, s, i, names, kind, 0);
        lemma_first_field_bounds(s, i, names, kind, 0);
        assert(t[d + i] == s[i]);
        match first_field(s, i, names, kind, 0) {
            Some((k, vs, ve)) => {
                lemma_shift_masked(x, s, ve, names, kind, repls);
                assert(t.subrange(d + i, d + vs) =~= s.subrange(i, vs));
            },
            None => {
                lemma_shift_masked(x, s, i + 1, names, kind, repls);
            },
        }
    }
}

/// A replacement text that the scan reads back as one value of its kind: a
/// string without quotes, backslashes or line breaks inside, or an integer.
pub open spec fn valid_repl(r: Seq<char>, kind: ValueKind) -> bool {
    match kind {
        ValueKind::Text => {
            &&& r.len() >= 2
            &&& r[0] == '"'
            &&& r[r.len() - 1] == '"'
            &&& forall|m: int| 1 <= m < r.len() - 1 ==> #[trigger] r[m] != '"' && r[m] != '\\' && r[m] != '\n'
        },
        ValueKind::Number => {
            let start = if r.len() > 0 && r[0] == '-' { 1int } else { 0int };
            &&& start < r.len()
            &&& forall|m: int| start <= m < r.len() ==> is_digit(#[trigger] r[m])
        },
    }
}

proof fn lemma_first_field_first(t: Seq<char>, i: int, names: Seq<Seq<char>>, kind: ValueKind, j: int, k: int)
    requires
        0 <= j <= k,
        first_field(t, i, names, kind, j) matches Some((f, _, _)) && f == k,
    ensures
        forall|k2: int| j <= k2 < k ==> field_at(t, i, #[trigger] names[k2], kind) is None,
    decreases k - j,
{
    if j < k {
        lemma_first_field_first(t, i, names, kind, j + 1, k);
    }
}

proof fn lemma_first_field_from(u: Seq<char>, p: int, names: Seq<Seq<char>>, kind: ValueKind, j: int, k: int)
    requires
        0 <= j <= k < names.len(),
        forall|k2: int| j <= k2 < k ==> field_at(u, p, #[trigger] names[k2], kind) is None,
        field_at(u, p, names[k], kind) is Some,
    ensures
        ({
            let (vs, ve) = field_at(u, p, names[k], kind)->0;
            first_field(u, p, names, kind, j) == Some((k, vs, ve))
        }),
    decreases k - j,
{
    if j < k {
        lemma_first_field_from(u, p, names, kind, j + 1, k);
    }
}

/// Two plain keys at one position are the same name.
pub proof fn lemma_plain_keys_meet(u: Seq<char>, p: int, a: Seq<char>, b: Seq<char>)
    requires
        key_at(u, p, a),
        key_at(u, p, b),
        plain_name(a),
        plain_name(b),
    ensures
        a == b,
{
    if a.len() < b.len() {
        assert(u.subrange(p + 1, p + 1 + b.len())[a.len() as int] == u[p + 1 + a.len()]);
    } else if a.len() > b.len() {
        assert(u.subrange(p + 1, p + 1 + a.len())[b.len() as int] == u[p + 1 + b.len()]);
    } else {
        assert(a =~= b) by {
            assert(a == u.subrange(p + 1, p + 1 + a.len()));
        }
    }
}

proof fn lemma_string_run(t: Seq<char>, k: int, n: int)
    requires
        0 <= k,
        0 <= n,
        k + n < t.len(),
        forall|m: int| k <= m < k + n ==> #[trigger] t[m] != '"' && t[m] != '\\' && t[m] != '\n',
        t[k + n] == '"',
    ensures
        string_close(t, k) == Some(k + n + 1),
    decreases n,
{
    if n > 0 {
        assert(t[k] != '"' && t[k] != '\\' && t[k] != '\n');
        lemma_string_run(t, k + 1, n - 1);
    }
}

proof fn lemma_spaces_run(t: Seq<char>, j: int, e: int)
    requires
        0 <= j <= e <= t.len(),
        forall|m: int| j <= m < e ==> #[trigger] t[m] == ' ',
        e < t.len() ==> t[e] != ' ',
    ensures
        skip_spaces(t, j) == e,
    decreases e - j,
{
    if j < e {
        lemma_spaces_run(t, j + 1, e);
    }
}

proof fn lemma_digits_run(t: Seq<char>, j: int, e: int)
    requires
        0 <= j <= e <= t.len(),
        forall|m: int| j <= m < e ==> is_digit(#[trigger] t[m]),
        e < t.len() ==> !is_digit(t[e]),
    ensures
        digits_end(t, j) == e,
    decreases e - j,
{
    if j < e {
        lemma_digits_run(t, j + 1, e);
    }
}

/// What follows a number that the scan took.
proof fn lemma_number_follow(t: Seq<char>, j: int, e: int)
    requires
        0 <= j,
        number_end(t, j) == Some(e),
    ensures
        e < t.len() ==> !is_digit(t[e]) && t[e] != '.' && t[e] != 'e' && t[e] != 'E',
{
    let k = if 0 <= j < t.len() && t[j] == '-' { j + 1 } else { j };
    lemma_digits_end_bounds(t, k);
    let m = digits_end(t, k);
    if m < t.len() && t[m] == '.' {
        lemma_digits_end_bounds(t, m + 1);
    }
}

/// A value written back in place of a taken value is taken again, by the
/// same name, and spans exactly the replacement.
proof fn lemma_same_match(
    t: Seq<char>,
    i: int,
    names: Seq<Seq<char>>,
    kind: ValueKind,
    repls: Seq<Seq<char>>,
    w: Seq<char>,
)
    requires
        0 <= i < t.len(),
        forall|k: int| 0 <= k < names.len() ==> plain_name(#[trigger] names[k]),
        first_field(t, i, names, kind, 0) matches Some((k, vs, ve)) && 0 <= k < repls.len() && valid_repl(repls[k], kind)
            && (ve < t.len() ==> w.len() > 0 && w[0] == t[ve]) && (ve >= t.len() ==> w.len() == 0),
    ensures
        first_field(t, i, names, kind, 0) matches Some((k, vs, ve)) && first_field(
            t.subrange(i, vs) + repls[k] + w,
            0,
            names,
            kind,
            0,
        ) == Some((k, vs - i, vs - i + repls[k].len())),
{
    let (k, vs, ve) = first_field(t, i, names, kind, 0)->0;
    lemma_first_field_bounds(t, i, names, kind, 0);
    let r = repls[k];
    let pre = t.subrange(i, vs);
    let u = pre + r + w;
    let a = names[k];
    let n = a.len() as int;
    let p = vs - i;
    lemma_skip_spaces_bounds(t, i + n + 3);
    // the key of `a` stands at the start of `u`
    assert(key_at(u, 0, a)) by {
        assert(u[0] == t[i]);
        assert(u[1 + n] == t[i + 1 + n]);
        assert(u[2 + n] == t[i + 2 + n]);
        assert(u.subrange(1, 1 + n) =~= t.subrange(i + 1, i + 1 + n)) by {
            assert forall|m: int| 0 <= m < n implies #[trigger] u.subrange(1, 1 + n)[m] == t.subrange(i + 1, i + 1 + n)[m] by {
                assert(u[1 + m] == t[i + 1 + m]);
            }
        }
    }
    // the spaces after the key are the same
    assert(r[0] != ' ') by {
        if kind == ValueKind::Number {
            if r[0] != '-' {
                assert(is_digit(r[0]));
            }
        }
    }
    assert(u[p] == r[0]);
    assert forall|m: int| n + 3 <= m < p implies #[trigger] u[m] == ' ' by {
        assert(u[m] == t[i + m]);
    }
    lemma_spaces_run(u, n + 3, p);
    // the replacement is read back as one value
    match kind {
        ValueKind::Text => {
            assert forall|m: int| p + 1 <= m < p + r.len() - 1 implies #[trigger] u[m] != '"' && u[m] != '\\' && u[m] != '\n' by {
                assert(u[m] == r[m - p]);
            }
            assert(u[p + r.len() - 1] == r[r.len() - 1]);
            lemma_string_run(u, p + 1, r.len() - 2);
        },
        ValueKind::Number => {
            lemma_number_follow(t, vs, ve);
            let start = if r.len() > 0 && r[0] == '-' { 1int } else { 0int };
            assert forall|m: int| p + start <= m < p + r.len() implies is_digit(#[trigger] u[m]) by {
                assert(u[m] == r[m - p]);
            }
            if ve < t.len() {
                assert(u[p + r.len()] == w[0]);
            }
            lemma_digits_run(u, p + start, p + r.len());
        },
    }
    assert(field_at(u, 0, a, kind) == Some((p, p + r.len())));
    // no earlier name takes the position
    lemma_first_field_first(t, i, names, kind, 0, k);
    assert forall|k2: int| 0 <= k2 < k implies field_at(u, 0, #[trigger] names[k2], kind) is None by {
        if key_at(u, 0, names[k2]) {
            lemma_plain_keys_meet(u, 0, names[k2], a);
            assert(field_at(t, i, names[k2], kind) == field_at(t, i, a, kind));
        }
    }
    lemma_first_field_from(u, 0, names, kind, 0, k);
}

/// The first position at or after `j` where a field of a configured name
/// starts.
pub open spec fn next_match(t: Seq<char>, j: int, names: Seq<Seq<char>>, kind: ValueKind) -> Option<int>
    decreases t.len() - j,
{
    if j < 0 || j >= t.len() {
        None
    } else if first_field(t, j, names, kind, 0) is Some {
        Some(j)
    } else {
        next_match(t, j + 1, names, kind)
    }
}

proof fn lemma_next_match_split(t: Seq<char>, j: int, names: Seq<Seq<char>>, kind: ValueKind, repls: Seq<Seq<char>>)
    requires
        0 <= j <= t.len(),
    ensures
        match next_match(t, j, names, kind) {
            Some(q) => {
                &&& j <= q < t.len()
                &&& first_field(t, q, names, kind, 0) is Some
                &&& masked_from(t, j, names, kind, repls) == t.subrange(j, q) + masked_from(t, q, names, kind, repls)
            },
            None => masked_from(t, j, names, kind, repls) == t.subrange(j, t.len() as int),
        },
    decreases t.len() - j,
{
    if j < t.len() && first_field(t, j, names, kind, 0) is None {
        lemma_next_match_split(t, j + 1, names, kind, repls);
        match next_match(t, j + 1, names, kind) {
            Some(q) => {
                assert(masked_from(t, j, names, kind, repls) =~= t.subrange(j, q) + masked_from(t, q, names, kind, repls));
            },
            None => {
                assert(masked_from(t, j, names, kind, repls) =~= t.subrange(j, t.len() as int));
            },
        }
    } else if j < t.len() {
        assert(t.subrange(j, j) + masked_from(t, j, names, kind, repls) =~= masked_from(t, j, names, kind, repls));
    } else {
        assert(masked_from(t, j, names, kind, repls) =~= t.subrange(j, t.len() as int));
    }
}

proof fn lemma_first_field_some(t: Seq<char>, i: int, names: Seq<Seq<char>>, kind: ValueKind, j: int, k: int)
    requires
        0 <= j <= k < names.len(),
        field_at(t, i, names[k], kind) is Some,
    ensures
        first_field(t, i, names, kind, j) is Some,
    decreases k - j,
{
    if j < k && field_at(t, i, names[j], kind) is None {
        lemma_first_field_some(t, i, names, kind, j + 1, k);
    }
}

/// Where no field started, none starts once the text after it is masked.
proof fn lemma_no_new_match(t: Seq<char>, i: int, names: Seq<Seq<char>>, kind: ValueKind, repls: Seq<Seq<char>>)
    requires
        0 <= i < t.len(),
        forall|k: int| 0 <= k < names.len() ==> plain_name(#[trigger] names[k]),
        first_field(t, i, names, kind, 0) is None,
    ensures
        first_field(seq![t[i]] + masked_from(t, i + 1, names, kind, repls), 0, names, kind, 0) is None,
{
    let u = seq![t[i]] + masked_from(t, i + 1, names, kind, repls);
    let x = t.subrange(0, i);
    let tt = t.subrange(i, t.len() as int);
    assert(x + tt =~= t);
    lemma_next_match_split(t, i + 1, names, kind, repls);
    match next_match(t, i + 1, names, kind) {
        None => {
            assert(u =~= tt);
            lemma_shift_first_field(x, tt, 0, names, kind, 0);
        },
        Some(q) => {
            lemma_first_field_bounds(t, q, names, kind, 0);
            let (kq, vsq, veq) = first_field(t, q, names, kind, 0)->0;
            let b = names[kq];
            let nb = b.len() as int;
            let qq = q - i;
            let w = vsq - i;
            let mq = masked_from(t, q, names, kind, repls);
            assert(mq == t.subrange(q, vsq) + repls[kq] + masked_from(t, veq, names, kind, repls));
            // `u` holds the text from `i` on, up to the value of the next field
            assert forall|m: int| 0 <= m < w implies #[trigger] u[m] == tt[m] by {
                if m == 0 {
                } else if m < qq {
                    assert(u[m] == t.subrange(i + 1, q)[m - 1]);
                } else {
                    assert(u[m] == mq[m - qq]);
                    assert(mq[m - qq] == t.subrange(q, vsq)[m - qq]);
                }
            }
            assert(u.len() >= w);
            assert(u[qq] == '"' && u[qq + 1 + nb] == '"' && u[qq + 2 + nb] == ':') by {
                assert(u[qq] == tt[qq]);
                assert(u[qq + 1 + nb] == tt[qq + 1 + nb]);
                assert(u[qq + 2 + nb] == tt[qq + 2 + nb]);
            }
            assert forall|m: int| 0 <= m < nb implies #[trigger] u[qq + 1 + m] == b[m] by {
                assert(u[qq + 1 + m] == tt[qq + 1 + m]);
                assert(t.subrange(q + 1, q + 1 + nb)[m] == t[q + 1 + m]);
            }
            assert forall|k: int| 0 <= k < names.len() implies field_at(u, 0, #[trigger] names[k], kind) is None by {
                lemma_first_field_none_all(t, i, names, kind, 0, k);
                lemma_shift_field_at(x, tt, 0, names[k], kind);
                lemma_window_field(u, tt, names[k], b, qq, w, kind);
            }
            assert forall|j: int| 0 <= j <= names.len() implies first_field(u, 0, names, kind, j) is None by {
                lemma_first_field_none_from(u, names, kind, j);
            }
        },
    }
}

proof fn lemma_first_field_none_all(t: Seq<char>, i: int, names: Seq<Seq<char>>, kind: ValueKind, j: int, k: int)
    requires
        0 <= j <= k < names.len(),
        first_field(t, i, names, kind, j) is None,
    ensures
        field_at(t, i, names[k], kind) is None,
    decreases k - j,
{
    if j < k {
        lemma_first_field_none_all(t, i, names, kind, j + 1, k);
    }
}

/// A field at the start of `u` reads no further than the key of a field
/// `b` at `qq`, so it is read alike in `tt`, which agrees with `u` there.
proof fn lemma_window_transfer(u: Seq<char>, tt: Seq<char>, a: Seq<char>, b: Seq<char>, qq: int, w: int, kind: ValueKind)
    requires
        plain_name(a),
        plain_name(b),
        1 <= qq,
        qq + b.len() + 3 <= w,
        w <= u.len(),
        w <= tt.len(),
        forall|m: int| 0 <= m < w ==> #[trigger] u[m] == tt[m],
        u[qq] == '"',
        forall|m: int| 0 <= m < b.len() ==> #[trigger] u[qq + 1 + m] == b[m],
        u[qq + 1 + b.len()] == '"',
        u[qq + 2 + b.len()] == ':',
        field_at(u, 0, a, kind) is Some,
    ensures
        field_at(tt, 0, a, kind) == field_at(u, 0, a, kind),
        kind == ValueKind::Text ==> (field_at(u, 0, a, kind) matches Some((_, e)) && e <= qq + b.len() + 2),
{
    let na = a.len() as int;
    let nb = b.len() as int;
    if field_at(u, 0, a, kind) is Some {
        let (vs2, ve2) = field_at(u, 0, a, kind)->0;
        if qq <= na {
            assert(u.subrange(1, 1 + na)[qq - 1] == u[qq]);
        } else if qq == na + 1 {
            assert(u[qq + 1 + 0] == b[0]);
            assert(u.subrange(1, 1 + na).len() == na);
        }
        assert(qq >= na + 3);
        lemma_skip_spaces_bounds(u, na + 3);
        assert(vs2 <= qq) by {
            if vs2 > qq {
                assert(u[qq] == ' ');
            }
        }
        lemma_value_end_bounds(u, vs2, kind);
        if kind == ValueKind::Text {
            lemma_string_close_bounds(u, vs2 + 1);
            if vs2 == qq {
                assert forall|m: int| qq + 1 <= m < qq + 1 + nb implies #[trigger] u[m] != '"' && u[m] != '\\' by {
                    assert(u[qq + 1 + (m - qq - 1)] == b[m - qq - 1]);
                }
                lemma_string_over_plain(u, qq + 1, nb);
            } else if ve2 - 1 > qq {
                lemma_string_interior(u, vs2 + 1, ve2, qq);
                let r = qq + nb + 1;
                if r < ve2 - 1 {
                    lemma_string_interior(u, vs2 + 1, ve2, r);
                    assert(u[qq + 1 + (nb - 1)] == b[nb - 1]);
                }
            }
            assert(ve2 <= qq + nb + 2);
        } else {
            if ve2 > qq {
                lemma_number_no_quote(u, vs2, ve2, qq);
            }
            assert(ve2 <= qq);
        }
        assert(agree_below(u, tt, ve2 + 1)) by {
            assert forall|m: int| 0 <= m < ve2 + 1 && m < u.len() implies #[trigger] u[m] == tt[m] by {
                assert(m < w);
            }
        }
        lemma_field_at_agree(u, tt, a, kind, vs2, ve2);
    }
}

proof fn lemma_window_field(u: Seq<char>, tt: Seq<char>, a: Seq<char>, b: Seq<char>, qq: int, w: int, kind: ValueKind)
    requires
        plain_name(a),
        plain_name(b),
        1 <= qq,
        qq + b.len() + 3 <= w,
        w <= u.len(),
        w <= tt.len(),
        forall|m: int| 0 <= m < w ==> #[trigger] u[m] == tt[m],
        u[qq] == '"',
        forall|m: int| 0 <= m < b.len() ==> #[trigger] u[qq + 1 + m] == b[m],
        u[qq + 1 + b.len()] == '"',
        u[qq + 2 + b.len()] == ':',
        field_at(tt, 0, a, kind) is None,
    ensures
        field_at(u, 0, a, kind) is None,
{
    if field_at(u, 0, a, kind) is Some {
        lemma_window_transfer(u, tt, a, b, qq, w, kind);
    }
}

proof fn lemma_first_field_none_from(u: Seq<char>, names: Seq<Seq<char>>, kind: ValueKind, j: int)
    requires
        0 <= j <= names.len(),
        forall|k: int| 0 <= k < names.len() ==> field_at(u, 0, #[trigger] names[k], kind) is None,
    ensures
        first_field(u, 0, names, kind, j) is None,
    decreases names.len() - j,
{
    if j < names.len() {
        lemma_first_field_none_from(u, names, kind, j + 1);
    }
}

proof fn lemma_masked_head(t: Seq<char>, j: int, names: Seq<Seq<char>>, kind: ValueKind, repls: Seq<Seq<char>>)
    requires
        0 <= j <= t.len(),
    ensures
        j < t.len() ==> masked_from(t, j, names, kind, repls).len() > 0 && masked_from(t, j, names, kind, repls)[0] == t[j],
        j == t.len() ==> masked_from(t, j, names, kind, repls).len() == 0,
{
    if j < t.len() {
        lemma_first_field_bounds(t, j, names, kind, 0);
        match first_field(t, j, names, kind, 0) {
            Some((k, vs, ve)) => {
                assert(t.subrange(j, vs)[0] == t[j]);
            },
            None => {},
        }
    }
}

proof fn lemma_idempotent_from(t: Seq<char>, i: int, names: Seq<Seq<char>>, kind: ValueKind, repls: Seq<Seq<char>>)
    requires
        0 <= i <= t.len(),
        forall|k: int| 0 <= k < names.len() ==> plain_name(#[trigger] names[k]),
        repls.len() == names.len(),
        forall|k: int| 0 <= k < repls.len() ==> valid_repl(#[trigger] repls[k], kind),
    ensures
        masked_from(masked_from(t, i, names, kind, repls), 0, names, kind, repls) == masked_from(t, i, names, kind, repls),
    decreases t.len() - i,
{
    let m = masked_from(t, i, names, kind, repls);
    if i == t.len() {
        assert(m.len() == 0);
    } else {
        lemma_first_field_bounds(t, i, names, kind, 0);
        match first_field(t, i, names, kind, 0) {
            Some((k, vs, ve)) => {
                let rest = masked_from(t, ve, names, kind, repls);
                let pre = t.subrange(i, vs) + repls[k];
                assert(m == pre + rest);
                lemma_masked_head(t, ve, names, kind, repls);
                lemma_same_match(t, i, names, kind, repls, rest);
                lemma_idempotent_from(t, ve, names, kind, repls);
                lemma_shift_masked(pre, rest, 0, names, kind, repls);
                assert(m.subrange(0, vs - i) =~= t.subrange(i, vs));
                assert(masked_from(m, 0, names, kind, repls) =~= m);
            },
            None => {
                let rest = masked_from(t, i + 1, names, kind, repls);
                assert(m == seq![t[i]] + rest);
                lemma_no_new_match(t, i, names, kind, repls);
                lemma_idempotent_from(t, i + 1, names, kind, repls);
                lemma_shift_masked(seq![t[i]], rest, 0, names, kind, repls);
                assert(masked_from(m, 0, names, kind, repls) =~= m);
            },
        }
    }
}

/// Idempotence, for one rule set: masking a text a second time with the
/// same rules changes nothing, when every name is plain and every
/// replacement reads back as one value of its kind (a string mask without
/// quotes, backslashes or line breaks; any integer).
pub proof fn lemma_mask_idempotent(t: Seq<char>, names: Seq<Seq<char>>, kind: ValueKind, repls: Seq<Seq<char>>)
    requires
        forall|k: int| 0 <= k < names.len() ==> plain_name(#[trigger] names[k]),
        repls.len() == names.len(),
        forall|k: int| 0 <= k < repls.len() ==> valid_repl(#[trigger] repls[k], kind),
    ensures
        masked_from(masked_from(t, 0, names, kind, repls), 0, names, kind, repls) == masked_from(t, 0, names, kind, repls),
{
    lemma_idempotent_from(t, 0, names, kind, repls);
}

/// Whether a rule set names plain fields only and writes back values that
/// the scan reads as one value of its kind.
pub open spec fn rules_valid(rules: Option<(Seq<Seq<char>>, Seq<Seq<char>>)>, kind: ValueKind) -> bool {
    match rules {
        Some((names, repls)) => {
            &&& forall|k: int| 0 <= k < names.len() ==> plain_name(#[trigger] names[k])
            &&& repls.len() == names.len()
            &&& forall|k: int| 0 <= k < repls.len() ==> valid_repl(#[trigger] repls[k], kind)
        },
        None => true,
    }
}

/// A mask that can stand between quotes: no quote, backslash or line break.
pub open spec fn clean_mask(m: Seq<char>) -> bool {
    forall|i: int| 0 <= i < m.len() ==> #[trigger] m[i] != '"' && m[i] != '\\' && m[i] != '\n'
}

/// Whether every mask that a strategy can give is clean.
pub open spec fn option_clean(option: StringMaskingOption) -> bool {
    match option {
        StringMaskingOption::DefaultMask => true,
        StringMaskingOption::SingleMask(m) => clean_mask(m@),
        StringMaskingOption::MultipleMasks(ms) => forall|i: int| 0 <= i < ms@.len() ==> clean_mask(#[trigger] ms@[i]@),
        StringMaskingOption::AssociatedMasks(ps) => forall|i: int| 0 <= i < ps@.len() ==> clean_mask(#[trigger] ps@[i].1@),
    }
}

proof fn lemma_assoc_clean(ps: Seq<(String, String)>, field: Seq<char>)
    requires
        forall|i: int| 0 <= i < ps.len() ==> clean_mask(#[trigger] ps[i].1@),
    ensures
        assoc_lookup(ps, field) matches Some(m) ==> clean_mask(m@),
    decreases ps.len(),
{
    if ps.len() > 0 && ps[0].0@ != field {
        assert forall|i: int| 0 <= i < ps.drop_first().len() implies clean_mask(#[trigger] ps.drop_first()[i].1@) by {
            assert(ps.drop_first()[i] == ps[i + 1]);
        }
        lemma_assoc_clean(ps.drop_first(), field);
    } else if ps.len() > 0 {
        assert(clean_mask(ps[0].1@));
    }
}

proof fn lemma_replacement_clean(option: StringMaskingOption, field: Seq<char>, index: Option<usize>)
    requires
        option_clean(option),
    ensures
        clean_mask(option.replacement(field, index)),
{
    assert(clean_mask(default_string_mask())) by {
        assert forall|i: int| 0 <= i < default_string_mask().len() implies #[trigger] default_string_mask()[i] != '"'
            && default_string_mask()[i] != '\\' && default_string_mask()[i] != '\n' by {
        }
    }
    match option {
        StringMaskingOption::MultipleMasks(ms) => {
            match index {
                Some(i) => if (i as int) < ms@.len() {
                    assert(clean_mask(ms@[i as int]@));
                },
                None => {},
            }
        },
        StringMaskingOption::AssociatedMasks(ps) => {
            lemma_assoc_clean(ps@, field);
        },
        _ => {},
    }
}

proof fn lemma_digits_valid(n: nat)
    ensures
        digits(n).len() > 0,
        forall|m: int| 0 <= m < digits(n).len() ==> is_digit(#[trigger] digits(n)[m]),
    decreases n,
{
    if n >= 10 {
        lemma_digits_valid(n / 10);
    }
}

/// The string rules of a strategy whose masks are clean, over plain names,
/// are valid.
pub proof fn lemma_string_rules_valid(option: StringMaskingOption, names: Seq<Seq<char>>)
    requires
        option_clean(option),
        forall|k: int| 0 <= k < names.len() ==> plain_name(#[trigger] names[k]),
    ensures
        rules_valid(Some((names, string_repls(option, names))), ValueKind::Text),
{
    let repls = string_repls(option, names);
    assert forall|k: int| 0 <= k < repls.len() implies valid_repl(#[trigger] repls[k], ValueKind::Text) by {
        let m = option.replacement(names[k], super::fields::last_position(names, names[k]));
        lemma_replacement_clean(option, names[k], super::fields::last_position(names, names[k]));
        let r = quoted(m);
        assert(repls[k] == r);
        assert forall|i: int| 1 <= i < r.len() - 1 implies #[trigger] r[i] != '"' && r[i] != '\\' && r[i] != '\n' by {
            assert(r[i] == m[i - 1]);
        }
    }
}

/// The number rules over plain names are valid, whatever the strategy.
pub proof fn lemma_number_rules_valid(option: NumberMaskingOption, names: Seq<Seq<char>>)
    requires
        forall|k: int| 0 <= k < names.len() ==> plain_name(#[trigger] names[k]),
    ensures
        rules_valid(Some((names, number_repls(option, names))), ValueKind::Number),
{
    let repls = number_repls(option, names);
    assert forall|k: int| 0 <= k < repls.len() implies valid_repl(#[trigger] repls[k], ValueKind::Number) by {
        let n = option.replacement(names[k], super::fields::last_position(names, names[k])) as int;
        let r = decimal(n);
        assert(repls[k] == r);
        if n < 0 {
            let d = digits((-n) as nat);
            lemma_digits_valid((-n) as nat);
            assert forall|m: int| 1 <= m < r.len() implies is_digit(#[trigger] r[m]) by {
                assert(r[m] == d[m - 1]);
            }
        } else {
            let d = digits(n as nat);
            lemma_digits_valid(n as nat);
            assert(r[0] != '-') by {
                assert(is_digit(d[0]));
            }
        }
    }
}

/// Masking from `p` on leaves the text as it is.
pub open spec fn fixed_from(u: Seq<char>, p: int, names: Seq<Seq<char>>, repls: Seq<Seq<char>>) -> bool {
    masked_from(u, p, names, ValueKind::Text, repls) == u.subrange(p, u.len() as int)
}

/// The number-masked text from position `p` of `u` on, where the number
/// scan stands at `j`: a field of a number rule at `j` has its value
/// replaced.
pub open spec fn number_suffix(u: Seq<char>, j: int, p: int, names: Seq<Seq<char>>, repls: Seq<Seq<char>>) -> Seq<char> {
    match first_field(u, j, names, ValueKind::Number, 0) {
        Some((k, vs, ve)) => u.subrange(p, vs) + repls[k] + masked_from(u, ve, names, ValueKind::Number, repls),
        None => masked_from(u, j, names, ValueKind::Number, repls),
    }
}

pub open spec fn number_state(u: Seq<char>, j: int, p: int, names: Seq<Seq<char>>) -> bool {
    &&& 0 <= j <= p <= u.len()
    &&& match first_field(u, j, names, ValueKind::Number, 0) {
        Some((k, vs, ve)) => p <= vs,
        None => p == j,
    }
}

proof fn lemma_no_key_no_field(u: Seq<char>, p: int, names: Seq<Seq<char>>, kind: ValueKind, j: int)
    requires
        0 <= j,
        p >= u.len() || p < 0 || u[p] != '"',
    ensures
        first_field(u, p, names, kind, j) is None,
    decreases names.len() - j,
{
    if j < names.len() {
        lemma_no_key_no_field(u, p, names, kind, j + 1);
    }
}

/// A text without quotes passes through a scan unchanged.
proof fn lemma_quote_free_prefix(x: Seq<char>, y: Seq<char>, names: Seq<Seq<char>>, kind: ValueKind, repls: Seq<Seq<char>>)
    requires
        forall|m: int| 0 <= m < x.len() ==> #[trigger] x[m] != '"',
    ensures
        masked_from(x + y, 0, names, kind, repls) == x + masked_from(y, 0, names, kind, repls),
    decreases x.len(),
{
    if x.len() == 0 {
        assert(x + y =~= y);
        assert(x + masked_from(y, 0, names, kind, repls) =~= masked_from(y, 0, names, kind, repls));
    } else {
        let x1 = x.drop_first();
        assert(forall|m: int| 0 <= m < x1.len() ==> #[trigger] x1[m] == x[m + 1]);
        lemma_quote_free_prefix(x1, y, names, kind, repls);
        assert((x + y)[0] == x[0]);
        lemma_no_key_no_field(x + y, 0, names, kind, 0);
        assert(x + y =~= seq![x[0]] + (x1 + y));
        lemma_shift_masked(seq![x[0]], x1 + y, 0, names, kind, repls);
        assert(masked_from(x + y, 0, names, kind, repls) =~= x + masked_from(y, 0, names, kind, repls));
    }
}

proof fn lemma_next_match_facts(u: Seq<char>, j: int, names: Seq<Seq<char>>, kind: ValueKind)
    requires
        0 <= j <= u.len(),
    ensures
        next_match(u, j, names, kind) matches Some(q) ==> {
            &&& j <= q < u.len()
            &&& first_field(u, q, names, kind, 0) is Some
            &&& forall|m: int| j <= m < q ==> (#[trigger] first_field(u, m, names, kind, 0)) is None
            &&& forall|m: int| j <= m <= q ==> #[trigger] next_match(u, m, names, kind) == Some(q)
        },
        next_match(u, j, names, kind) is None ==> {
            &&& forall|m: int| j <= m <= u.len() ==> (#[trigger] first_field(u, m, names, kind, 0)) is None
            &&& forall|m: int| j <= m <= u.len() ==> #[trigger] next_match(u, m, names, kind) is None
        },
    decreases u.len() - j,
{
    if j < u.len() {
        lemma_next_match_facts(u, j + 1, names, kind);
    } else {
        lemma_no_key_no_field(u, j, names, kind, 0);
    }
}

/// Where masking leaves a text as it is, a field's value already is its
/// replacement.
proof fn lemma_fixed_region(u: Seq<char>, p: int, names: Seq<Seq<char>>, repls: Seq<Seq<char>>)
    requires
        0 <= p < u.len(),
        fixed_from(u, p, names, repls),
        first_field(u, p, names, ValueKind::Text, 0) matches Some((k, vs, ve)) && 0 <= k < repls.len() && valid_repl(repls[k], ValueKind::Text),
    ensures
        first_field(u, p, names, ValueKind::Text, 0) matches Some((k, vs, ve)) && u.subrange(vs, ve) == repls[k]
            && fixed_from(u, ve, names, repls),
{
    let (k, vs, ve) = first_field(u, p, names, ValueKind::Text, 0)->0;
    lemma_first_field_bounds(u, p, names, ValueKind::Text, 0);
    lemma_string_close_bounds(u, vs + 1);
    let r = repls[k];
    let rest = masked_from(u, ve, names, ValueKind::Text, repls);
    let whole = u.subrange(p, u.len() as int);
    assert(whole == u.subrange(p, vs) + r + rest);
    assert(whole.len() == (vs - p) + r.len() + rest.len());
    assert forall|m: int| 0 <= m < r.len() implies #[trigger] u[vs + m] == r[m] by {
        assert(whole[vs - p + m] == u[vs + m]);
        assert((u.subrange(p, vs) + r + rest)[vs - p + m] == r[m]);
    }
    assert(u[vs] == '"');
    if ve < vs + r.len() {
        assert(u[vs + (ve - 1 - vs)] == r[ve - 1 - vs]);
    } else if ve > vs + r.len() {
        let q = vs + r.len() - 1;
        assert(u[vs + (r.len() - 1)] == r[r.len() - 1]);
        lemma_string_interior(u, vs + 1, ve, q);
        assert(u[vs + (r.len() - 2)] == r[r.len() - 2]);
    }
    assert(u.subrange(vs, ve) =~= r) by {
        assert forall|m: int| 0 <= m < r.len() implies u.subrange(vs, ve)[m] == r[m] by {
            assert(u[vs + m] == r[m]);
        }
    }
    assert(rest =~= u.subrange(ve, u.len() as int)) by {
        assert forall|m: int| 0 <= m < rest.len() implies rest[m] == u[ve + m] by {
            assert(whole[vs - p + r.len() + m] == u[ve + m]);
            assert((u.subrange(p, vs) + r + rest)[vs - p + r.len() + m] == rest[m]);
        }
    }
}

proof fn lemma_first_field_eq(x: Seq<char>, y: Seq<char>, names: Seq<Seq<char>>, kind: ValueKind, j: int)
    requires
        0 <= j,
        forall|k: int| 0 <= k < names.len() ==> field_at(x, 0, #[trigger] names[k], kind) == field_at(y, 0, names[k], kind),
    ensures
        first_field(x, 0, names, kind, j) == first_field(y, 0, names, kind, j),
    decreases names.len() - j,
{
    if j < names.len() {
        lemma_first_field_eq(x, y, names, kind, j + 1);
    }
}

/// From a position where no number field starts, the number-masked text
/// is the text up to `until` followed by the number-masked text from `until`, as
/// long as `until` does not pass the value of the next number field.
proof fn lemma_gap_advance(u: Seq<char>, nn: Seq<Seq<char>>, nr: Seq<Seq<char>>, p: int, until: int) -> (j2: int)
    requires
        0 <= p < until <= u.len(),
        first_field(u, p, nn, ValueKind::Number, 0) is None,
        next_match(u, p + 1, nn, ValueKind::Number) matches Some(q) ==> (first_field(u, q, nn, ValueKind::Number, 0) matches Some((_, vsq, _)) && until <= vsq),
    ensures
        number_state(u, j2, until, nn),
        number_suffix(u, p, p, nn, nr) == u.subrange(p, until) + number_suffix(u, j2, until, nn, nr),
{
    let kind = ValueKind::Number;
    lemma_next_match_split(u, p + 1, nn, kind, nr);
    lemma_next_match_facts(u, p + 1, nn, kind);
    let m = masked_from(u, p, nn, kind, nr);
    assert(m == seq![u[p]] + masked_from(u, p + 1, nn, kind, nr));
    match next_match(u, p + 1, nn, kind) {
        None => {
            lemma_next_match_split(u, until, nn, kind, nr);
            assert(m =~= u.subrange(p, until) + masked_from(u, until, nn, kind, nr));
            until
        },
        Some(q) => {
            lemma_first_field_bounds(u, q, nn, kind, 0);
            let (kq, vsq, veq) = first_field(u, q, nn, kind, 0)->0;
            if until < q {
                lemma_next_match_split(u, until, nn, kind, nr);
                assert(m =~= u.subrange(p, until) + masked_from(u, until, nn, kind, nr));
                until
            } else {
                let mq = masked_from(u, q, nn, kind, nr);
                assert(mq == u.subrange(q, vsq) + nr[kq] + masked_from(u, veq, nn, kind, nr));
                assert(m =~= u.subrange(p, until) + (u.subrange(until, vsq) + nr[kq] + masked_from(u, veq, nn, kind, nr)));
                q
            }
        },
    }
}

/// The number-masked text from `p` agrees with the text from `p` up to the
/// value of the next number field, whose key it holds.
proof fn lemma_suffix_agrees(u: Seq<char>, nn: Seq<Seq<char>>, nr: Seq<Seq<char>>, p: int, q: int)
    requires
        0 <= p < u.len(),
        first_field(u, p, nn, ValueKind::Number, 0) is None,
        next_match(u, p + 1, nn, ValueKind::Number) == Some(q),
    ensures
        first_field(u, q, nn, ValueKind::Number, 0) matches Some((kq, vsq, veq)) && {
            let v = number_suffix(u, p, p, nn, nr);
            let tt = u.subrange(p, u.len() as int);
            let b = nn[kq];
            let qq = q - p;
            let w = vsq - p;
            &&& 0 <= kq < nn.len()
            &&& 1 <= qq
            &&& qq + b.len() + 3 <= w
            &&& w <= v.len()
            &&& w <= tt.len()
            &&& (forall|m: int| 0 <= m < w ==> #[trigger] v[m] == tt[m])
            &&& tt[qq] == '"' && tt[qq + 1 + b.len()] == '"' && tt[qq + 2 + b.len()] == ':'
            &&& (forall|m: int| 0 <= m < b.len() ==> #[trigger] tt[qq + 1 + m] == b[m])
        },
{
    let kind = ValueKind::Number;
    lemma_next_match_split(u, p + 1, nn, kind, nr);
    lemma_next_match_facts(u, p + 1, nn, kind);
    let v = number_suffix(u, p, p, nn, nr);
    let tt = u.subrange(p, u.len() as int);
    assert(v == seq![u[p]] + masked_from(u, p + 1, nn, kind, nr));
    lemma_first_field_bounds(u, q, nn, kind, 0);
    let (kq, vsq, veq) = first_field(u, q, nn, kind, 0)->0;
    let b = nn[kq];
    let nb = b.len() as int;
    let qq = q - p;
    let w = vsq - p;
    let mq = masked_from(u, q, nn, kind, nr);
    assert(mq == u.subrange(q, vsq) + nr[kq] + masked_from(u, veq, nn, kind, nr));
    assert forall|m: int| 0 <= m < w implies #[trigger] v[m] == tt[m] by {
        if m == 0 {
        } else if m < qq {
            assert(v[m] == u.subrange(p + 1, q)[m - 1]);
        } else {
            assert(v[m] == mq[m - qq]);
            assert(mq[m - qq] == u.subrange(q, vsq)[m - qq]);
        }
    }
    assert forall|m: int| 0 <= m < nb implies #[trigger] tt[qq + 1 + m] == b[m] by {
        assert(u.subrange(q + 1, q + 1 + nb)[m] == u[q + 1 + m]);
    }
}

/// Two texts that agree up to `w` and hold a plain key at `qq` read the same
/// string fields at their start.
proof fn lemma_window_fields_eq(v: Seq<char>, tt: Seq<char>, sn: Seq<Seq<char>>, b: Seq<char>, qq: int, w: int)
    requires
        forall|k: int| 0 <= k < sn.len() ==> plain_name(#[trigger] sn[k]),
        plain_name(b),
        1 <= qq,
        qq + b.len() + 3 <= w,
        w <= v.len(),
        w <= tt.len(),
        forall|m: int| 0 <= m < w ==> #[trigger] v[m] == tt[m],
        tt[qq] == '"' && tt[qq + 1 + b.len()] == '"' && tt[qq + 2 + b.len()] == ':',
        forall|m: int| 0 <= m < b.len() ==> #[trigger] tt[qq + 1 + m] == b[m],
    ensures
        first_field(v, 0, sn, ValueKind::Text, 0) == first_field(tt, 0, sn, ValueKind::Text, 0),
        forall|k: int| 0 <= k < sn.len() ==> (field_at(tt, 0, #[trigger] sn[k], ValueKind::Text) matches Some((_, e)) ==> e <= qq + b.len() + 2),
{
    let nb = b.len() as int;
    assert forall|m: int| 0 <= m < w implies #[trigger] tt[m] == v[m] by {
        assert(v[m] == tt[m]);
    }
    assert(v[qq] == '"' && v[qq + 1 + nb] == '"' && v[qq + 2 + nb] == ':') by {
        assert(v[qq] == tt[qq]);
        assert(v[qq + 1 + nb] == tt[qq + 1 + nb]);
        assert(v[qq + 2 + nb] == tt[qq + 2 + nb]);
    }
    assert forall|m: int| 0 <= m < nb implies #[trigger] v[qq + 1 + m] == b[m] by {
        assert(v[qq + 1 + m] == tt[qq + 1 + m]);
    }
    assert forall|k: int| 0 <= k < sn.len() implies field_at(v, 0, #[trigger] sn[k], ValueKind::Text) == field_at(tt, 0, sn[k], ValueKind::Text)
        && (field_at(tt, 0, sn[k], ValueKind::Text) matches Some((_, e)) ==> e <= qq + b.len() + 2) by {
        if field_at(tt, 0, sn[k], ValueKind::Text) is Some {
            lemma_window_transfer(tt, v, sn[k], b, qq, w, ValueKind::Text);
        } else if field_at(v, 0, sn[k], ValueKind::Text) is Some {
            lemma_window_transfer(v, tt, sn[k], b, qq, w, ValueKind::Text);
        }
    }
    lemma_first_field_eq(v, tt, sn, ValueKind::Text, 0);
}

/// At a position where no number field starts, the string fields read in
/// the number-masked text are those of the text, and a string field there
/// ends before the value of the next number field.
proof fn lemma_gap_window(u: Seq<char>, sn: Seq<Seq<char>>, nn: Seq<Seq<char>>, nr: Seq<Seq<char>>, p: int)
    requires
        0 <= p < u.len(),
        forall|k: int| 0 <= k < sn.len() ==> plain_name(#[trigger] sn[k]),
        forall|k: int| 0 <= k < nn.len() ==> plain_name(#[trigger] nn[k]),
        first_field(u, p, nn, ValueKind::Number, 0) is None,
    ensures
        first_field(number_suffix(u, p, p, nn, nr), 0, sn, ValueKind::Text, 0) == match first_field(u, p, sn, ValueKind::Text, 0) {
            Some((k, vs, ve)) => Some((k, vs - p, ve - p)),
            None => None::<(int, int, int)>,
        },
        first_field(u, p, sn, ValueKind::Text, 0) matches Some((k, vs, ve)) ==> (next_match(u, p + 1, nn, ValueKind::Number) matches Some(q)
            ==> (first_field(u, q, nn, ValueKind::Number, 0) matches Some((_, vsq, _)) && ve <= vsq)),
{
    let kind = ValueKind::Number;
    let v = number_suffix(u, p, p, nn, nr);
    let x = u.subrange(0, p);
    let tt = u.subrange(p, u.len() as int);
    assert(x + tt =~= u);
    lemma_shift_first_field(x, tt, 0, sn, ValueKind::Text, 0);
    match next_match(u, p + 1, nn, kind) {
        None => {
            lemma_next_match_split(u, p + 1, nn, kind, nr);
            assert(v == seq![u[p]] + masked_from(u, p + 1, nn, kind, nr));
            assert(v =~= tt);
        },
        Some(q) => {
            lemma_suffix_agrees(u, nn, nr, p, q);
            let (kq, vsq, veq) = first_field(u, q, nn, kind, 0)->0;
            lemma_window_fields_eq(v, tt, sn, nn[kq], q - p, vsq - p);
            match first_field(u, p, sn, ValueKind::Text, 0) {
                Some((k, vs, ve)) => {
                    lemma_first_field_bounds(tt, 0, sn, ValueKind::Text, 0);
                },
                None => {},
            }
        },
    }
}

proof fn lemma_first_field_none_at(u: Seq<char>, p: int, names: Seq<Seq<char>>, kind: ValueKind, j: int)
    requires
        0 <= j <= names.len(),
        forall|k: int| 0 <= k < names.len() ==> field_at(u, p, #[trigger] names[k], kind) is None,
    ensures
        first_field(u, p, names, kind, j) is None,
    decreases names.len() - j,
{
    if j < names.len() {
        lemma_first_field_none_at(u, p, names, kind, j + 1);
    }
}

/// No string field starts inside the key of a number field whose value is a
/// number.
proof fn lemma_number_key_no_text(y: Seq<char>, n: Seq<char>, vs: int, p: int, sn: Seq<Seq<char>>)
    requires
        key_at(y, 0, n),
        plain_name(n),
        skip_spaces(y, n.len() as int + 3) == vs,
        vs < y.len(),
        y[vs] == '-' || is_digit(y[vs]),
        0 <= p < vs,
        forall|k: int| 0 <= k < sn.len() ==> plain_name(#[trigger] sn[k]),
    ensures
        first_field(y, p, sn, ValueKind::Text, 0) is None,
{
    let nn = n.len() as int;
    lemma_skip_spaces_bounds(y, nn + 3);
    assert forall|k: int| 0 <= k < sn.len() implies field_at(y, p, #[trigger] sn[k], ValueKind::Text) is None by {
        let a = sn[k];
        if key_at(y, p, a) {
            if p == 0 {
                lemma_plain_keys_meet(y, 0, a, n);
            } else if p <= nn {
                assert(y.subrange(1, 1 + nn)[p - 1] == y[p]);
            } else if p == nn + 1 {
                assert(y.subrange(p + 1, p + 1 + a.len())[0] == y[p + 1]);
            } else if p >= nn + 3 {
                assert(y[p] == ' ');
            }
        }
    }
    lemma_first_field_none_at(y, p, sn, ValueKind::Text, 0);
}

proof fn lemma_cross(
    u: Seq<char>,
    sn: Seq<Seq<char>>,
    sr: Seq<Seq<char>>,
    nn: Seq<Seq<char>>,
    nr: Seq<Seq<char>>,
    j: int,
    p: int,
)
    requires
        rules_valid(Some((sn, sr)), ValueKind::Text),
        rules_valid(Some((nn, nr)), ValueKind::Number),
        number_state(u, j, p, nn),
        fixed_from(u, p, sn, sr),
    ensures
        masked_from(number_suffix(u, j, p, nn, nr), 0, sn, ValueKind::Text, sr) == number_suffix(u, j, p, nn, nr),
    decreases u.len() - p, 1int,
{
    match first_field(u, j, nn, ValueKind::Number, 0) {
        Some((kn, vsn, ven)) => {
            if p == vsn {
                lemma_cross_value(u, sn, sr, nn, nr, j, p);
            } else {
                lemma_cross_key(u, sn, sr, nn, nr, j, p);
            }
        },
        None => {
            if p == u.len() {
                assert(number_suffix(u, j, p, nn, nr).len() == 0);
            } else {
                lemma_cross_gap(u, sn, sr, nn, nr, p);
            }
        },
    }
}

/// Masking strings over a number value leaves the text after it as it is.
proof fn lemma_value_text_side(u: Seq<char>, sn: Seq<Seq<char>>, sr: Seq<Seq<char>>, vsn: int, ven: int)
    requires
        0 <= vsn < ven <= u.len(),
        number_end(u, vsn) == Some(ven),
        fixed_from(u, vsn, sn, sr),
    ensures
        fixed_from(u, ven, sn, sr),
{
    let text = ValueKind::Text;
    let val = u.subrange(vsn, ven);
    let tail = u.subrange(ven, u.len() as int);
    assert forall|m: int| 0 <= m < val.len() implies #[trigger] val[m] != '"' by {
        lemma_number_no_quote(u, vsn, ven, vsn + m);
    }
    assert(u.subrange(0, vsn) + (val + tail) =~= u);
    lemma_shift_masked(u.subrange(0, vsn), val + tail, 0, sn, text, sr);
    lemma_quote_free_prefix(val, tail, sn, text, sr);
    assert(u.subrange(0, ven) + tail =~= u);
    lemma_shift_masked(u.subrange(0, ven), tail, 0, sn, text, sr);
    assert(u.subrange(vsn, u.len() as int) =~= val + tail);
    let mt = masked_from(tail, 0, sn, text, sr);
    assert(val + mt == val + tail);
    assert forall|m: int| 0 <= m < mt.len() implies mt[m] == tail[m] by {
        assert((val + mt)[val.len() + m] == mt[m]);
        assert((val + tail)[val.len() + m] == tail[m]);
    }
    assert(mt.len() == tail.len());
    assert(mt =~= tail);
}

/// The number-masked text from the end of a number value on is the
/// number-masked text from there.
proof fn lemma_resume(u: Seq<char>, nn: Seq<Seq<char>>, nr: Seq<Seq<char>>, p: int)
    requires
        0 <= p <= u.len(),
    ensures
        number_state(u, p, p, nn),
        number_suffix(u, p, p, nn, nr) == masked_from(u, p, nn, ValueKind::Number, nr),
{
    lemma_first_field_bounds(u, p, nn, ValueKind::Number, 0);
    match first_field(u, p, nn, ValueKind::Number, 0) {
        Some((k2, vs2, ve2)) => {
            assert(masked_from(u, p, nn, ValueKind::Number, nr) == u.subrange(p, vs2) + nr[k2] + masked_from(u, ve2, nn, ValueKind::Number, nr));
        },
        None => {},
    }
}

/// Over the value of a number field: neither the number nor its
/// replacement holds a quote.
proof fn lemma_cross_value(
    u: Seq<char>,
    sn: Seq<Seq<char>>,
    sr: Seq<Seq<char>>,
    nn: Seq<Seq<char>>,
    nr: Seq<Seq<char>>,
    j: int,
    p: int,
)
    requires
        rules_valid(Some((sn, sr)), ValueKind::Text),
        rules_valid(Some((nn, nr)), ValueKind::Number),
        number_state(u, j, p, nn),
        fixed_from(u, p, sn, sr),
        first_field(u, j, nn, ValueKind::Number, 0) matches Some((_, vsn, _)) && p == vsn,
    ensures
        masked_from(number_suffix(u, j, p, nn, nr), 0, sn, ValueKind::Text, sr) == number_suffix(u, j, p, nn, nr),
    decreases u.len() - p, 0int,
{
    let text = ValueKind::Text;
    let num = ValueKind::Number;
    lemma_first_field_bounds(u, j, nn, num, 0);
    let (kn, vsn, ven) = first_field(u, j, nn, num, 0)->0;
    lemma_value_text_side(u, sn, sr, vsn, ven);
    lemma_resume(u, nn, nr, ven);
    lemma_cross(u, sn, sr, nn, nr, ven, ven);
    let rest = masked_from(u, ven, nn, num, nr);
    let r = nr[kn];
    assert forall|m: int| 0 <= m < r.len() implies #[trigger] r[m] != '"' by {
        if m > 0 || r[0] != '-' {
            assert(is_digit(r[m]));
        }
    }
    lemma_quote_free_prefix(r, rest, sn, text, sr);
    assert(number_suffix(u, j, p, nn, nr) =~= r + rest);
}

/// Masking from a position where no field starts leaves the text as it is
/// from the next position on, where it did from that position.
proof fn lemma_fixed_step(u: Seq<char>, p: int, sn: Seq<Seq<char>>, sr: Seq<Seq<char>>)
    requires
        0 <= p < u.len(),
        fixed_from(u, p, sn, sr),
        first_field(u, p, sn, ValueKind::Text, 0) is None,
    ensures
        fixed_from(u, p + 1, sn, sr),
{
    let a = masked_from(u, p + 1, sn, ValueKind::Text, sr);
    let b = u.subrange(p + 1, u.len() as int);
    assert(masked_from(u, p, sn, ValueKind::Text, sr) == seq![u[p]] + a);
    assert(u.subrange(p, u.len() as int) =~= seq![u[p]] + b);
    assert(a.len() == b.len());
    assert forall|m: int| 0 <= m < a.len() implies a[m] == b[m] by {
        assert((seq![u[p]] + a)[m + 1] == a[m]);
        assert((seq![u[p]] + b)[m + 1] == b[m]);
    }
    assert(a =~= b);
}

/// Inside the key of a number field, the text holds no string field.
proof fn lemma_key_text_side(u: Seq<char>, sn: Seq<Seq<char>>, nn: Seq<Seq<char>>, j: int, p: int)
    requires
        forall|k: int| 0 <= k < sn.len() ==> plain_name(#[trigger] sn[k]),
        forall|k: int| 0 <= k < nn.len() ==> plain_name(#[trigger] nn[k]),
        0 <= j <= p,
        first_field(u, j, nn, ValueKind::Number, 0) matches Some((_, vsn, _)) && p < vsn,
    ensures
        first_field(u, p, sn, ValueKind::Text, 0) is None,
{
    let num = ValueKind::Number;
    lemma_first_field_bounds(u, j, nn, num, 0);
    let (kn, vsn, ven) = first_field(u, j, nn, num, 0)->0;
    let n = nn[kn];
    let nl = n.len() as int;
    let k0 = if u[vsn] == '-' { vsn + 1 } else { vsn };
    lemma_digits_end_bounds(u, k0);
    let y = u.subrange(j, u.len() as int);
    assert(u.subrange(0, j) + y =~= u);
    lemma_shift_key_at(u.subrange(0, j), y, 0, n);
    lemma_shift_skip_spaces(u.subrange(0, j), y, nl + 3);
    assert(y[vsn - j] == u[vsn]);
    lemma_number_key_no_text(y, n, vsn - j, p - j, sn);
    lemma_shift_first_field(u.subrange(0, j), y, p - j, sn, ValueKind::Text, 0);
}

/// Inside the key of a number field, the number-masked text holds no
/// string field either.
#[verifier::rlimit(60)]
proof fn lemma_key_number_side(u: Seq<char>, sn: Seq<Seq<char>>, nn: Seq<Seq<char>>, nr: Seq<Seq<char>>, j: int, p: int)
    requires
        forall|k: int| 0 <= k < sn.len() ==> plain_name(#[trigger] sn[k]),
        rules_valid(Some((nn, nr)), ValueKind::Number),
        0 <= j <= p,
        first_field(u, j, nn, ValueKind::Number, 0) matches Some((_, vsn, _)) && p < vsn,
    ensures
        first_field(number_suffix(u, j, p, nn, nr), 0, sn, ValueKind::Text, 0) is None,
        number_suffix(u, j, p, nn, nr) == seq![u[p]] + number_suffix(u, j, p + 1, nn, nr),
{
    let num = ValueKind::Number;
    let text = ValueKind::Text;
    lemma_first_field_bounds(u, j, nn, num, 0);
    let (kn, vsn, ven) = first_field(u, j, nn, num, 0)->0;
    let n = nn[kn];
    let nl = n.len() as int;
    let r = nr[kn];
    let rest = masked_from(u, ven, nn, num, nr);
    assert(r[0] == '-' || is_digit(r[0]));
    let y = u.subrange(j, u.len() as int);
    assert(u.subrange(0, j) + y =~= u);
    lemma_shift_key_at(u.subrange(0, j), y, 0, n);
    lemma_shift_skip_spaces(u.subrange(0, j), y, nl + 3);
    lemma_skip_spaces_bounds(y, nl + 3);
    let yv = u.subrange(j, vsn) + r + rest;
    assert(key_at(yv, 0, n)) by {
        assert(yv.subrange(1, 1 + nl) =~= y.subrange(1, 1 + nl));
        assert(yv[0] == y[0] && yv[1 + nl] == y[1 + nl] && yv[2 + nl] == y[2 + nl]);
    }
    assert forall|m: int| nl + 3 <= m < vsn - j implies #[trigger] yv[m] == ' ' by {
        assert(yv[m] == y[m]);
    }
    assert(yv[vsn - j] == r[0]);
    lemma_spaces_run(yv, nl + 3, vsn - j);
    lemma_number_key_no_text(yv, n, vsn - j, p - j, sn);
    let sfx = number_suffix(u, j, p, nn, nr);
    assert(yv.subrange(0, p - j) + sfx =~= yv);
    lemma_shift_first_field(yv.subrange(0, p - j), sfx, 0, sn, text, 0);
    assert(sfx =~= seq![u[p]] + number_suffix(u, j, p + 1, nn, nr));
}

/// Over the key of a number field: no string field starts there.
proof fn lemma_cross_key(
    u: Seq<char>,
    sn: Seq<Seq<char>>,
    sr: Seq<Seq<char>>,
    nn: Seq<Seq<char>>,
    nr: Seq<Seq<char>>,
    j: int,
    p: int,
)
    requires
        rules_valid(Some((sn, sr)), ValueKind::Text),
        rules_valid(Some((nn, nr)), ValueKind::Number),
        number_state(u, j, p, nn),
        fixed_from(u, p, sn, sr),
        first_field(u, j, nn, ValueKind::Number, 0) matches Some((_, vsn, _)) && p < vsn,
    ensures
        masked_from(number_suffix(u, j, p, nn, nr), 0, sn, ValueKind::Text, sr) == number_suffix(u, j, p, nn, nr),
    decreases u.len() - p, 0int,
{
    let text = ValueKind::Text;
    lemma_first_field_bounds(u, j, nn, ValueKind::Number, 0);
    lemma_key_text_side(u, sn, nn, j, p);
    lemma_fixed_step(u, p, sn, sr);
    lemma_cross(u, sn, sr, nn, nr, j, p + 1);
    lemma_key_number_side(u, sn, nn, nr, j, p);
    let sfx1 = number_suffix(u, j, p + 1, nn, nr);
    lemma_shift_masked(seq![u[p]], sfx1, 0, sn, text, sr);
    assert(masked_from(number_suffix(u, j, p, nn, nr), 0, sn, text, sr) =~= number_suffix(u, j, p, nn, nr));
}

/// Between number fields: the string scan of the number-masked text takes
/// the fields that the string scan of the text takes.
proof fn lemma_cross_gap(
    u: Seq<char>,
    sn: Seq<Seq<char>>,
    sr: Seq<Seq<char>>,
    nn: Seq<Seq<char>>,
    nr: Seq<Seq<char>>,
    p: int,
)
    requires
        rules_valid(Some((sn, sr)), ValueKind::Text),
        rules_valid(Some((nn, nr)), ValueKind::Number),
        0 <= p < u.len(),
        first_field(u, p, nn, ValueKind::Number, 0) is None,
        fixed_from(u, p, sn, sr),
    ensures
        masked_from(number_suffix(u, p, p, nn, nr), 0, sn, ValueKind::Text, sr) == number_suffix(u, p, p, nn, nr),
    decreases u.len() - p, 0int,
{
    let text = ValueKind::Text;
    let num = ValueKind::Number;
    let v = number_suffix(u, p, p, nn, nr);
    lemma_gap_window(u, sn, nn, nr, p);
    lemma_next_match_facts(u, p + 1, nn, num);
    match next_match(u, p + 1, nn, num) {
        Some(q) => {
            lemma_first_field_bounds(u, q, nn, num, 0);
        },
        None => {},
    }
    lemma_first_field_bounds(u, p, sn, text, 0);
    match first_field(u, p, sn, text, 0) {
        Some((k, vs, ve)) => {
            lemma_fixed_region(u, p, sn, sr);
            let j2 = lemma_gap_advance(u, nn, nr, p, ve);
            lemma_cross(u, sn, sr, nn, nr, j2, ve);
            let v2 = number_suffix(u, j2, ve, nn, nr);
            assert(v == u.subrange(p, ve) + v2);
            assert(masked_from(v, 0, sn, text, sr) == v.subrange(0, vs - p) + sr[k] + masked_from(v, ve - p, sn, text, sr));
            lemma_shift_masked(u.subrange(p, ve), v2, 0, sn, text, sr);
            assert(v.subrange(0, vs - p) =~= u.subrange(p, vs));
            assert(masked_from(v, 0, sn, text, sr) =~= v);
        },
        None => {
            lemma_fixed_step(u, p, sn, sr);
            let j2 = lemma_gap_advance(u, nn, nr, p, p + 1);
            lemma_cross(u, sn, sr, nn, nr, j2, p + 1);
            let v2 = number_suffix(u, j2, p + 1, nn, nr);
            assert(v =~= seq![u[p]] + v2);
            lemma_shift_masked(seq![u[p]], v2, 0, sn, text, sr);
            assert(masked_from(v, 0, sn, text, sr) =~= v);
        },
    }
}

/// Idempotence, for a body policy: masking a masked body again changes
/// nothing, when its rules are valid: every name plain, and every string
/// mask free of quotes, backslashes and line breaks.
pub proof fn lemma_body_mask_idempotent(mask: BodyMask, t: Seq<char>)
    requires
        rules_valid(mask.string_rules(), ValueKind::Text),
        rules_valid(mask.number_rules(), ValueKind::Number),
    ensures
        mask.masked(mask.masked(t)) == mask.masked(t),
{
    let u = apply_rules(t, mask.string_rules(), ValueKind::Text);
    let v = apply_rules(u, mask.number_rules(), ValueKind::Number);
    assert(mask.masked(t) == v);
    // the string rules leave `v` as it is
    match mask.string_rules() {
        Some((sn, sr)) => {
            lemma_mask_idempotent(t, sn, ValueKind::Text, sr);
            assert(u.subrange(0, u.len() as int) =~= u);
            match mask.number_rules() {
                Some((nn, nr)) => {
                    lemma_resume(u, nn, nr, 0);
                    lemma_cross(u, sn, sr, nn, nr, 0, 0);
                },
                None => {},
            }
        },
        None => {},
    }
    assert(apply_rules(v, mask.string_rules(), ValueKind::Text) == v);
    // and the number rules leave it as it is too
    match mask.number_rules() {
        Some((nn, nr)) => {
            lemma_mask_idempotent(u, nn, ValueKind::Number, nr);
        },
        None => {},
    }
}

} // verus!
