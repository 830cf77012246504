//! Field isolation: masking fields of some names leaves the key and the
//! value of a field of any other name as they were.
use vstd::prelude::*;
use super::field_scan::{
    first_field, key_at, lemma_digits_end_bounds, lemma_first_field_bounds, lemma_skip_spaces_bounds,
    lemma_string_close_bounds, lemma_value_end_bounds, masked_from, number_end, skip_spaces, string_close, value_end,
    digits_end, field_at, is_digit, ValueKind,
};
use super::body_mask::{apply_rules, BodyMask};

verus! {

/// A name that stands as a key without ambiguity: not empty, and without
/// quotes, backslashes or colons.
pub open spec fn plain_name(n: Seq<char>) -> bool {
    &&& n.len() > 0
    &&& forall|i: int| 0 <= i < n.len() ==> #[trigger] n[i] != '"' && n[i] != '\\' && n[i] != ':'
}

/// A field `name` at `p` whose value, a string or a number, ends at `ve`.
pub open spec fn scalar_field_at(t: Seq<char>, p: int, name: Seq<char>, ve: int) -> bool {
    &&& key_at(t, p, name)
    &&& (value_end(t, skip_spaces(t, p + name.len() + 3), ValueKind::Text) == Some(ve)
        || value_end(t, skip_spaces(t, p + name.len() + 3), ValueKind::Number) == Some(ve))
}

/// The rules of a rule set name plain fields other than `b`.
pub open spec fn rules_spare(names: Seq<Seq<char>>, b: Seq<char>) -> bool {
    forall|k: int| 0 <= k < names.len() ==> plain_name(#[trigger] names[k]) && names[k] != b
}

/// Whether the scan from `i` stops at `p`.
pub open spec fn scan_reaches(t: Seq<char>, i: int, p: int, names: Seq<Seq<char>>, kind: ValueKind) -> bool
    decreases t.len() - i,
{
    if i == p {
        true
    } else if i < 0 || i >= t.len() || i > p {
        false
    } else {
        match first_field(t, i, names, kind, 0) {
            Some((k, vs, ve)) => {
                proof {
                    lemma_first_field_bounds(t, i, names, kind, 0);
                }
                scan_reaches(t, ve, p, names, kind)
            },
            None => scan_reaches(t, i + 1, p, names, kind),
        }
    }
}

/// What the scan from `i` writes before it stops at `p`.
pub open spec fn output_before(t: Seq<char>, i: int, p: int, names: Seq<Seq<char>>, kind: ValueKind, repls: Seq<Seq<char>>) -> Seq<char>
    decreases t.len() - i,
{
    if i < 0 || i >= t.len() || i >= p {
        Seq::empty()
    } else {
        match first_field(t, i, names, kind, 0) {
            Some((k, vs, ve)) => {
                proof {
                    lemma_first_field_bounds(t, i, names, kind, 0);
                }
                t.subrange(i, vs) + repls[k] + output_before(t, ve, p, names, kind, repls)
            },
            None => seq![t[i]] + output_before(t, i + 1, p, names, kind, repls),
        }
    }
}

proof fn lemma_scan_split(t: Seq<char>, i: int, p: int, names: Seq<Seq<char>>, kind: ValueKind, repls: Seq<Seq<char>>)
    requires
        0 <= i,
        scan_reaches(t, i, p, names, kind),
    ensures
        masked_from(t, i, names, kind, repls) == output_before(t, i, p, names, kind, repls) + masked_from(t, p, names, kind, repls),
    decreases t.len() - i,
{
    if i == p {
        assert(output_before(t, i, p, names, kind, repls) =~= Seq::empty());
        assert(Seq::<char>::empty() + masked_from(t, p, names, kind, repls) =~= masked_from(t, p, names, kind, repls));
    } else {
        lemma_first_field_bounds(t, i, names, kind, 0);
        match first_field(t, i, names, kind, 0) {
            Some((k, vs, ve)) => {
                lemma_scan_split(t, ve, p, names, kind, repls);
                assert(masked_from(t, i, names, kind, repls) =~= output_before(t, i, p, names, kind, repls) + masked_from(t, p, names, kind, repls));
            },
            None => {
                lemma_scan_split(t, i + 1, p, names, kind, repls);
                assert(masked_from(t, i, names, kind, repls) =~= output_before(t, i, p, names, kind, repls) + masked_from(t, p, names, kind, repls));
            },
        }
    }
}

/// Inside a string, a quote other than the closing one is escaped.
pub proof fn lemma_string_interior(t: Seq<char>, k: int, e: int, r: int)
    requires
        string_close(t, k) == Some(e),
        k <= r < e - 1,
        t[r] == '"',
    ensures
        r > k,
        t[r - 1] == '\\',
    decreases t.len() + 1 - k,
{
    if t[k] == '"' {
    } else if t[k] == '\\' {
        if r >= k + 2 {
            lemma_string_interior(t, k + 2, e, r);
        }
    } else {
        if r >= k + 1 {
            lemma_string_interior(t, k + 1, e, r);
        }
    }
}

/// A string scan crosses characters that are neither quotes nor backslashes
/// one by one.
pub proof fn lemma_string_over_plain(t: Seq<char>, k: int, n: int)
    requires
        0 <= k,
        0 <= n,
        k + n <= t.len(),
        forall|m: int| k <= m < k + n ==> #[trigger] t[m] != '"' && t[m] != '\\',
        string_close(t, k) is Some,
    ensures
        string_close(t, k + n) == string_close(t, k),
    decreases n,
{
    if n > 0 {
        assert(t[k] != '"' && t[k] != '\\');
        lemma_string_over_plain(t, k + 1, n - 1);
    }
}

pub proof fn lemma_number_no_quote(t: Seq<char>, j: int, e: int, m: int)
    requires
        0 <= j,
        number_end(t, j) == Some(e),
        j <= m < e,
    ensures
        t[m] != '"',
{
    let k = if 0 <= j < t.len() && t[j] == '-' { j + 1 } else { j };
    lemma_digits_end_bounds(t, k);
    let d = digits_end(t, k);
    if d < t.len() && t[d] == '.' {
        lemma_digits_end_bounds(t, d + 1);
    }
}

/// A field of another plain name that starts inside the field `b` at `p`
/// has its value after the end `ve` of `b`'s value.
proof fn lemma_no_field_inside(t: Seq<char>, p: int, b: Seq<char>, ve: int, q: int, a: Seq<char>, kind: ValueKind)
    requires
        plain_name(a),
        plain_name(b),
        a != b,
        scalar_field_at(t, p, b, ve),
        p <= q < ve,
    ensures
        field_at(t, q, a, kind) matches Some((vs2, _)) ==> vs2 > ve,
{
    if key_at(t, q, a) {
        let vs = skip_spaces(t, p + b.len() + 3);
        lemma_skip_spaces_bounds(t, p + b.len() + 3);
        lemma_skip_spaces_bounds(t, q + a.len() + 3);
        if q == p {
            if a.len() < b.len() {
                assert(t[p + 1 + a.len()] == b[a.len() as int]) by {
                    assert(t.subrange(p + 1, p + 1 + b.len())[a.len() as int] == t[p + 1 + a.len()]);
                }
            } else if a.len() > b.len() {
                assert(t[p + 1 + b.len()] == a[b.len() as int]) by {
                    assert(t.subrange(q + 1, q + 1 + a.len())[b.len() as int] == t[p + 1 + b.len()]);
                }
            } else {
                assert(a =~= b) by {
                    assert(a == t.subrange(p + 1, p + 1 + a.len()));
                }
            }
        } else if q <= p + b.len() {
            assert(t[q] == b[q - p - 1]) by {
                assert(t.subrange(p + 1, p + 1 + b.len())[q - p - 1] == t[q]);
            }
        } else if q == p + b.len() + 1 {
            assert(t[q + 1] == a[0]) by {
                assert(t.subrange(q + 1, q + 1 + a.len())[0] == t[q + 1]);
            }
        } else if q == p + b.len() + 2 {
        } else if q < vs {
            assert(t[q] == ' ');
        } else {
            lemma_value_end_bounds(t, vs, ValueKind::Number);
            if value_end(t, vs, ValueKind::Text) == Some(ve) {
                lemma_string_close_bounds(t, vs + 1);
                if q == vs {
                    assert forall|m: int| vs + 1 <= m < vs + 1 + a.len() implies #[trigger] t[m] != '"' && t[m] != '\\' by {
                        assert(t.subrange(q + 1, q + 1 + a.len())[m - vs - 1] == t[m]);
                        assert(t[m] == a[m - vs - 1]);
                    }
                    lemma_string_over_plain(t, vs + 1, a.len() as int);
                    assert(string_close(t, vs + 1 + a.len()) == Some(vs + a.len() + 2));
                } else if q < ve - 1 {
                    lemma_string_interior(t, vs + 1, ve, q);
                    let r = q + a.len() + 1;
                    if r < ve - 1 {
                        lemma_string_interior(t, vs + 1, ve, r);
                        assert(t[r - 1] == a[a.len() - 1]) by {
                            assert(t.subrange(q + 1, q + 1 + a.len())[a.len() - 1] == t[r - 1]);
                        }
                    }
                }
            } else {
                lemma_number_no_quote(t, vs, ve, q);
            }
        }
    }
}

/// The scan over the field `b` at `p` writes its key and value unchanged,
/// and the character after them too.
proof fn lemma_field_kept(t: Seq<char>, p: int, b: Seq<char>, ve: int, q: int, names: Seq<Seq<char>>, kind: ValueKind, repls: Seq<Seq<char>>)
    requires
        plain_name(b),
        rules_spare(names, b),
        scalar_field_at(t, p, b, ve),
        p <= q <= ve,
    ensures
        masked_from(t, q, names, kind, repls).len() >= ve - q,
        masked_from(t, q, names, kind, repls).subrange(0, ve - q) == t.subrange(q, ve),
        ve < t.len() ==> masked_from(t, q, names, kind, repls).len() > ve - q
            && masked_from(t, q, names, kind, repls)[ve - q] == t[ve],
        ve >= t.len() ==> masked_from(t, q, names, kind, repls).len() == ve - q,
    decreases ve - q,
{
    let vs0 = skip_spaces(t, p + b.len() + 3);
    lemma_skip_spaces_bounds(t, p + b.len() + 3);
    lemma_value_end_bounds(t, vs0, ValueKind::Text);
    lemma_value_end_bounds(t, vs0, ValueKind::Number);
    lemma_first_field_bounds(t, q, names, kind, 0);
    if q == ve {
        if ve < t.len() {
            match first_field(t, q, names, kind, 0) {
                Some((k, vs, e)) => {
                    assert(t.subrange(q, vs)[0] == t[q]);
                },
                None => {},
            }
        }
        assert(masked_from(t, q, names, kind, repls).subrange(0, 0) =~= t.subrange(q, ve));
    } else {
        match first_field(t, q, names, kind, 0) {
            Some((k, vs, e)) => {
                lemma_no_field_inside(t, p, b, ve, q, names[k], kind);
                let out = masked_from(t, q, names, kind, repls);
                assert(out.subrange(0, ve - q) =~= t.subrange(q, ve)) by {
                    assert forall|m: int| 0 <= m < ve - q implies out[m] == t[q + m] by {
                        assert(t.subrange(q, vs)[m] == t[q + m]);
                    }
                }
                if ve < t.len() {
                    assert(t.subrange(q, vs)[ve - q] == t[ve]);
                }
            },
            None => {
                lemma_field_kept(t, p, b, ve, q + 1, names, kind, repls);
                let out = masked_from(t, q, names, kind, repls);
                assert(out.subrange(0, ve - q) =~= t.subrange(q, ve)) by {
                    assert forall|m: int| 0 <= m < ve - q implies out[m] == t[q + m] by {
                        if m > 0 {
                            assert(masked_from(t, q + 1, names, kind, repls).subrange(0, ve - q - 1)[m - 1] == t.subrange(q + 1, ve)[m - 1]);
                        }
                    }
                }
            },
        }
    }
}

/// Field isolation, for one rule set: where the scan reaches a field `b`
/// that no rule names, the masked text holds `b`'s key and value unchanged,
/// at the place where the scan's output stood when it reached it. Every
/// name, `b` included, is plain.
pub proof fn lemma_field_isolation(t: Seq<char>, names: Seq<Seq<char>>, kind: ValueKind, repls: Seq<Seq<char>>, b: Seq<char>, p: int, ve: int)
    requires
        plain_name(b),
        rules_spare(names, b),
        scalar_field_at(t, p, b, ve),
        scan_reaches(t, 0, p, names, kind),
    ensures
        ({
            let o = output_before(t, 0, p, names, kind, repls).len() as int;
            let out = masked_from(t, 0, names, kind, repls);
            out.len() >= o + (ve - p) && out.subrange(o, o + (ve - p)) == t.subrange(p, ve)
        }),
{
    lemma_skip_spaces_bounds(t, p + b.len() + 3);
    lemma_value_end_bounds(t, skip_spaces(t, p + b.len() + 3), ValueKind::Text);
    lemma_value_end_bounds(t, skip_spaces(t, p + b.len() + 3), ValueKind::Number);
    lemma_scan_split(t, 0, p, names, kind, repls);
    lemma_field_kept(t, p, b, ve, p, names, kind, repls);
    let o = output_before(t, 0, p, names, kind, repls);
    let rest = masked_from(t, p, names, kind, repls);
    assert((o + rest).subrange(o.len() as int, o.len() + (ve - p)) =~= rest.subrange(0, ve - p));
}

/// Whether two texts hold the same characters at positions below `n`, and
/// end at the same place where one of them ends below `n`.
pub open spec fn agree_below(t: Seq<char>, u: Seq<char>, n: int) -> bool {
    &&& (t.len() < n || u.len() < n) ==> t.len() == u.len()
    &&& forall|m: int| 0 <= m < n && m < t.len() ==> #[trigger] t[m] == u[m]
}

pub proof fn lemma_skip_spaces_agree(t: Seq<char>, u: Seq<char>, j: int, n: int)
    requires
        0 <= j,
        skip_spaces(t, j) < n,
        agree_below(t, u, n),
    ensures
        skip_spaces(u, j) == skip_spaces(t, j),
    decreases t.len() - j,
{
    if 0 <= j < t.len() && t[j] == ' ' {
        lemma_skip_spaces_bounds(t, j + 1);
        lemma_skip_spaces_agree(t, u, j + 1, n);
    }
}

pub proof fn lemma_string_close_agree(t: Seq<char>, u: Seq<char>, k: int, n: int)
    requires
        string_close(t, k) matches Some(e) && e <= n,
        agree_below(t, u, n),
    ensures
        string_close(u, k) == string_close(t, k),
    decreases t.len() + 1 - k,
{
    lemma_string_close_bounds(t, k);
    if t[k] == '\\' {
        lemma_string_close_agree(t, u, k + 2, n);
    } else if t[k] != '"' && t[k] != '\n' {
        lemma_string_close_agree(t, u, k + 1, n);
    }
}

pub proof fn lemma_digits_end_agree(t: Seq<char>, u: Seq<char>, j: int, n: int)
    requires
        0 <= j,
        digits_end(t, j) < n,
        agree_below(t, u, n),
    ensures
        digits_end(u, j) == digits_end(t, j),
    decreases t.len() - j,
{
    lemma_digits_end_bounds(t, j);
    if 0 <= j < t.len() && is_digit(t[j]) {
        lemma_digits_end_agree(t, u, j + 1, n);
    }
}

/// A field read in one text is read alike in a text that agrees with it up
/// to and including the end of the field's value.
pub proof fn lemma_field_at_agree(t: Seq<char>, u: Seq<char>, b: Seq<char>, kind: ValueKind, vs: int, ve: int)
    requires
        field_at(t, 0, b, kind) == Some((vs, ve)),
        agree_below(t, u, ve + 1),
    ensures
        field_at(u, 0, b, kind) == Some((vs, ve)),
{
    let j = b.len() as int + 3;
    lemma_skip_spaces_bounds(t, j);
    lemma_value_end_bounds(t, vs, kind);
    assert(u.subrange(1, 1 + b.len() as int) =~= t.subrange(1, 1 + b.len() as int)) by {
        assert forall|m: int| 0 <= m < b.len() implies #[trigger] u.subrange(1, 1 + b.len() as int)[m] == t.subrange(1, 1 + b.len() as int)[m] by {
            assert(t[1 + m] == u[1 + m]);
        }
    }
    assert(t[0] == u[0] && t[1 + b.len() as int] == u[1 + b.len() as int] && t[2 + b.len() as int] == u[2 + b.len() as int]);
    lemma_skip_spaces_agree(t, u, j, ve + 1);
    if kind == ValueKind::Text {
        assert(t[vs] == u[vs]);
        lemma_string_close_agree(t, u, vs + 1, ve + 1);
    } else {
        let k = if 0 <= vs < t.len() && t[vs] == '-' { vs + 1 } else { vs };
        assert(0 <= vs < t.len() ==> t[vs] == u[vs]);
        lemma_digits_end_bounds(t, k);
        let d = digits_end(t, k);
        if d < t.len() && t[d] == '.' {
            lemma_digits_end_bounds(t, d + 1);
        }
        lemma_digits_end_agree(t, u, k, ve + 1);
        if d < t.len() && t[d] == '.' {
            lemma_digits_end_agree(t, u, d + 1, ve + 1);
        }
        assert(d < t.len() ==> t[d] == u[d]);
        let e = if d < t.len() && t[d] == '.' { digits_end(t, d + 1) } else { d };
        assert(e < t.len() ==> t[e] == u[e]);
    }
}

proof fn lemma_field_agree(t: Seq<char>, u: Seq<char>, b: Seq<char>, ve: int)
    requires
        scalar_field_at(t, 0, b, ve),
        agree_below(t, u, ve + 1),
    ensures
        scalar_field_at(u, 0, b, ve),
{
    let j = b.len() as int + 3;
    let vs = skip_spaces(t, j);
    lemma_skip_spaces_bounds(t, j);
    lemma_value_end_bounds(t, vs, ValueKind::Text);
    lemma_value_end_bounds(t, vs, ValueKind::Number);
    assert(u.subrange(1, 1 + b.len() as int) =~= t.subrange(1, 1 + b.len() as int)) by {
        assert forall|m: int| 0 <= m < b.len() implies #[trigger] u.subrange(1, 1 + b.len() as int)[m] == t.subrange(1, 1 + b.len() as int)[m] by {
            assert(t[1 + m] == u[1 + m]);
        }
    }
    assert(t[0] == u[0] && t[1 + b.len() as int] == u[1 + b.len() as int] && t[2 + b.len() as int] == u[2 + b.len() as int]);
    lemma_skip_spaces_agree(t, u, j, ve + 1);
    if value_end(t, vs, ValueKind::Text) == Some(ve) {
        assert(t[vs] == u[vs]);
        lemma_string_close_agree(t, u, vs + 1, ve + 1);
    } else {
        let k = if 0 <= vs < t.len() && t[vs] == '-' { vs + 1 } else { vs };
        assert(0 <= vs < t.len() ==> t[vs] == u[vs]);
        lemma_digits_end_bounds(t, k);
        let d = digits_end(t, k);
        if d < t.len() && t[d] == '.' {
            lemma_digits_end_bounds(t, d + 1);
        }
        lemma_digits_end_agree(t, u, k, ve + 1);
        if d < t.len() && t[d] == '.' {
            lemma_digits_end_agree(t, u, d + 1, ve + 1);
        }
        assert(d < t.len() ==> t[d] == u[d]);
        let e = if d < t.len() && t[d] == '.' { digits_end(t, d + 1) } else { d };
        assert(e < t.len() ==> t[e] == u[e]);
    }
}

/// One rule set that names other plain fields keeps a field `b` at the start
/// of the text, and the character after it.
proof fn lemma_pass_keeps_front(t: Seq<char>, rules: Option<(Seq<Seq<char>>, Seq<Seq<char>>)>, kind: ValueKind, b: Seq<char>, ve: int)
    requires
        plain_name(b),
        rules matches Some((names, _)) ==> rules_spare(names, b),
        scalar_field_at(t, 0, b, ve),
    ensures
        agree_below(t, apply_rules(t, rules, kind), ve + 1),
        scalar_field_at(apply_rules(t, rules, kind), 0, b, ve),
{
    lemma_skip_spaces_bounds(t, b.len() as int + 3);
    lemma_value_end_bounds(t, skip_spaces(t, b.len() as int + 3), ValueKind::Text);
    lemma_value_end_bounds(t, skip_spaces(t, b.len() as int + 3), ValueKind::Number);
    match rules {
        Some((names, repls)) => {
            lemma_field_kept(t, 0, b, ve, 0, names, kind, repls);
            let u = masked_from(t, 0, names, kind, repls);
            assert forall|m: int| 0 <= m < ve + 1 && m < t.len() implies #[trigger] t[m] == u[m] by {
                if m < ve {
                    assert(u.subrange(0, ve)[m] == t.subrange(0, ve)[m]);
                }
            }
        },
        None => {},
    }
    lemma_field_agree(t, apply_rules(t, rules, kind), b, ve);
}

/// Field isolation, for a body policy: a body that starts with a field `b`
/// (its key, then a string or a number) that neither rule set names keeps
/// that field's key and value, whatever follows and whatever the rules do
/// to it. Every name, `b` included, is plain.
pub proof fn lemma_body_field_isolation(mask: BodyMask, t: Seq<char>, b: Seq<char>, ve: int)
    requires
        plain_name(b),
        mask.string_rules() matches Some((names, _)) ==> rules_spare(names, b),
        mask.number_rules() matches Some((names, _)) ==> rules_spare(names, b),
        scalar_field_at(t, 0, b, ve),
    ensures
        mask.masked(t).len() >= ve,
        mask.masked(t).subrange(0, ve) == t.subrange(0, ve),
{
    let t1 = apply_rules(t, mask.string_rules(), ValueKind::Text);
    lemma_pass_keeps_front(t, mask.string_rules(), ValueKind::Text, b, ve);
    lemma_pass_keeps_front(t1, mask.number_rules(), ValueKind::Number, b, ve);
    let t2 = mask.masked(t);
    lemma_skip_spaces_bounds(t, b.len() as int + 3);
    lemma_value_end_bounds(t, skip_spaces(t, b.len() as int + 3), ValueKind::Text);
    lemma_value_end_bounds(t, skip_spaces(t, b.len() as int + 3), ValueKind::Number);
    assert(t[ve - 1] == t1[ve - 1]);
    assert(t1[ve - 1] == t2[ve - 1]);
    assert forall|m: int| 0 <= m < ve implies t2[m] == t[m] by {
        assert(t[m] == t1[m]);
        assert(t1[m] == t2[m]);
    }
    assert(t2.subrange(0, ve) =~= t.subrange(0, ve));
}

} // verus!
