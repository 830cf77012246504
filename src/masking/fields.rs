//! The configured field names of a rule set, and the tables that find a
//! field's position among them.
use vstd::prelude::*;
use crate::text::{chars_of, same_chars, string_of};

verus! {

/// The names of the fields that a rule set masks, in configuration order.
#[derive(Debug, Clone)]
pub struct Fields(Vec<String>);

/// The views of a list of strings.
pub open spec fn string_views(v: Seq<String>) -> Seq<Seq<char>> {
    v.map_values(|s: String| s@)
}

impl Fields {
    /// The configured names, in order.
    pub closed spec fn names(&self) -> Seq<Seq<char>> {
        string_views(self.0@)
    }

    /// The fields named in `fields`, in that order.
    pub fn new(fields: Vec<String>) -> (r: Fields)
        ensures
            r.names() == string_views(fields@),
    {
        Fields(fields)
    }

    /// The single field `field`.
    pub fn single(field: String) -> (r: Fields)
        ensures
            r.names() == seq![field@],
    {
        let mut v: Vec<String> = Vec::new();
        v.push(field);
        let r = Fields(v);
        assert(r.names() =~= seq![v@[0]@]);
        r
    }

    pub fn len(&self) -> (r: usize)
        ensures
            r == self.names().len(),
    {
        self.0.len()
    }

    pub fn is_empty(&self) -> (r: bool)
        ensures
            r == (self.names().len() == 0),
    {
        self.0.len() == 0
    }

    /// The name configured at position `i`.
    pub fn get(&self, i: usize) -> (r: &String)
        requires
            i < self.names().len(),
        ensures
            r@ == self.names()[i as int],
    {
        &self.0[i]
    }

    /// The configured names, in order.
    pub fn into_vec(self) -> (r: Vec<String>)
        ensures
            string_views(r@) == self.names(),
    {
        self.0
    }
}

/// The value of the last entry whose key is `key`: a later entry for a key
/// replaces an earlier one.
pub open spec fn lookup_last<V>(entries: Seq<(Seq<char>, V)>, key: Seq<char>) -> Option<V>
    decreases entries.len(),
{
    if entries.len() == 0 {
        None
    } else if entries.last().0 == key {
        Some(entries.last().1)
    } else {
        lookup_last(entries.drop_last(), key)
    }
}

/// The position of the last name equal to `name`, if any.
pub open spec fn last_position(names: Seq<Seq<char>>, name: Seq<char>) -> Option<usize>
    decreases names.len(),
{
    if names.len() == 0 {
        None
    } else if names.last() == name {
        Some((names.len() - 1) as usize)
    } else {
        last_position(names.drop_last(), name)
    }
}

pub proof fn lemma_last_position_found(names: Seq<Seq<char>>, k: int)
    requires
        0 <= k < names.len(),
        names.len() <= usize::MAX,
    ensures
        last_position(names, names[k]) matches Some(p) && k <= p < names.len() && names[p as int] == names[k],
    decreases names.len(),
{
    if names.last() != names[k] {
        assert(names.drop_last()[k] == names[k]);
        lemma_last_position_found(names.drop_last(), k);
        let p = last_position(names.drop_last(), names[k])->0;
        assert(names.drop_last()[p as int] == names[p as int]);
    }
}

/// A table that holds each name with its position finds the last position
/// of a name.
pub proof fn lemma_lookup_positions(entries: Seq<(Seq<char>, usize)>, names: Seq<Seq<char>>, name: Seq<char>)
    requires
        entries.len() == names.len(),
        forall|j: int| 0 <= j < names.len() ==> #[trigger] entries[j] == (names[j], j as usize),
    ensures
        lookup_last(entries, name) == last_position(names, name),
    decreases names.len(),
{
    if names.len() > 0 {
        let n = names.len() - 1;
        assert(entries.last() == entries[n]);
        assert forall|j: int| 0 <= j < names.drop_last().len() implies #[trigger] entries.drop_last()[j] == (names.drop_last()[j], j as usize) by {
            assert(entries[j] == (names[j], j as usize));
        }
        lemma_lookup_positions(entries.drop_last(), names.drop_last(), name);
    }
}

/// A name between double quotes, as it stands as a key in a JSON text.
pub open spec fn quoted(name: Seq<char>) -> Seq<char> {
    seq!['"'] + name + seq!['"']
}

pub proof fn lemma_quoted_injective(a: Seq<char>, b: Seq<char>)
    requires
        quoted(a) == quoted(b),
    ensures
        a == b,
{
    assert(quoted(a).len() == a.len() + 2);
    assert(quoted(b).len() == b.len() + 2);
    assert forall|i: int| 0 <= i < a.len() implies a[i] == b[i] by {
        assert(quoted(a)[i + 1] == a[i]);
        assert(quoted(b)[i + 1] == b[i]);
    }
    assert(a =~= b);
}

fn quote(name: &Vec<char>) -> (r: Vec<char>)
    ensures
        r@ == quoted(name@),
{
    let mut r: Vec<char> = Vec::new();
    r.push('"');
    let mut i: usize = 0;
    while i < name.len()
        invariant
            i <= name@.len(),
            r@ == seq!['"'] + name@.take(i as int),
        decreases name@.len() - i,
    {
        r.push(name[i]);
        assert(name@.take(i as int).push(name@[i as int]) =~= name@.take(i as int + 1));
        i = i + 1;
    }
    r.push('"');
    assert(name@.take(name@.len() as int) =~= name@);
    assert(r@ =~= quoted(name@));
    r
}

/// Finds a body field by its quoted key: `"name"` gives the name and its
/// position among the configured fields.
#[derive(Debug, Clone)]
pub struct BodyMaskFieldsSearchMap(Vec<(Vec<char>, (String, usize))>);

impl BodyMaskFieldsSearchMap {
    /// The entries, in configuration order.
    pub closed spec fn entries(&self) -> Seq<(Seq<char>, (Seq<char>, usize))> {
        self.0@.map_values(|e: (Vec<char>, (String, usize))| (e.0@, (e.1.0@, e.1.1)))
    }

    /// The names the table was built from.
    pub closed spec fn names(&self) -> Seq<Seq<char>> {
        self.0@.map_values(|e: (Vec<char>, (String, usize))| e.1.0@)
    }

    pub closed spec fn wf(&self) -> bool {
        forall|j: int| 0 <= j < self.0@.len() ==> {
            &&& (#[trigger] self.0@[j]).0@ == quoted(self.0@[j].1.0@)
            &&& self.0@[j].1.1 == j
        }
    }

    /// Whether the table holds `fields`, each under its quoted name.
    pub open spec fn holds(&self, fields: Seq<Seq<char>>) -> bool {
        &&& self.wf()
        &&& self.names() == fields
    }

    /// What the table gives for a quoted key: the name and the position of its
    /// last configuration.
    pub open spec fn spec_get(&self, key: Seq<char>) -> Option<(Seq<char>, usize)> {
        lookup_last(self.entries(), key)
    }

    /// The table of `fields`.
    pub fn new(fields: &Fields) -> (r: BodyMaskFieldsSearchMap)
        ensures
            r.holds(fields.names()),
    {
        let mut v: Vec<(Vec<char>, (String, usize))> = Vec::new();
        let mut i: usize = 0;
        while i < fields.len()
            invariant
                i <= fields.names().len(),
                v@.len() == i,
                forall|j: int| 0 <= j < i ==> {
                    &&& (#[trigger] v@[j]).0@ == quoted(v@[j].1.0@)
                    &&& v@[j].1.1 == j
                    &&& v@[j].1.0@ == fields.names()[j]
                },
            decreases fields.names().len() - i,
        {
            let name = fields.get(i).clone();
            let key = quote(&chars_of(name.as_str()));
            v.push((key, (name, i)));
            i = i + 1;
        }
        let r = BodyMaskFieldsSearchMap(v);
        assert forall|j: int| 0 <= j < r.names().len() implies r.names()[j] == fields.names()[j] by {
            assert(v@[j].1.0@ == fields.names()[j]);
        }
        assert(r.names() =~= fields.names());
        r
    }

    /// The name and the position of the field whose quoted key is `field`.
    pub fn get(&self, field: &str) -> (r: Option<(String, usize)>)
        ensures
            match r {
                Some((name, index)) => self.spec_get(field@) == Some((name@, index)),
                None => self.spec_get(field@) is None,
            },
    {
        let key = chars_of(field);
        let mut j = self.0.len();
        assert(self.entries().take(j as int) =~= self.entries());
        while j > 0
            invariant
                j <= self.0@.len(),
                key@ == field@,
                lookup_last(self.entries(), key@) == lookup_last(self.entries().take(j as int), key@),
            decreases j,
        {
            let entry = &self.0[j - 1];
            assert(self.entries().take(j as int).last() == self.entries()[j - 1]);
            assert(self.entries()[j - 1] == (entry.0@, (entry.1.0@, entry.1.1)));
            assert(self.entries().take(j as int).drop_last() =~= self.entries().take(j - 1));
            if same_chars(&entry.0, &key) {
                assert(self.entries().take(j as int).len() == j);
                assert(lookup_last(self.entries().take(j as int), key@) == Some(self.entries()[j - 1].1));
                return Some((entry.1.0.clone(), entry.1.1));
            }
            j = j - 1;
        }
        None
    }

    /// The entries: each quoted key with its name and position.
    pub fn into_iter(self) -> (r: Vec<(String, (String, usize))>)
        ensures
            r@.len() == self.entries().len(),
            forall|j: int| 0 <= j < r@.len() ==> (#[trigger] r@[j].0@, (r@[j].1.0@, r@[j].1.1)) == self.entries()[j],
    {
        let mut r: Vec<(String, (String, usize))> = Vec::new();
        let mut i: usize = 0;
        while i < self.0.len()
            invariant
                i <= self.0@.len(),
                r@.len() == i,
                forall|j: int| 0 <= j < i ==> (#[trigger] r@[j].0@, (r@[j].1.0@, r@[j].1.1)) == self.entries()[j],
            decreases self.0@.len() - i,
        {
            let entry = &self.0[i];
            r.push((string_of(entry.0.as_slice()), (entry.1.0.clone(), entry.1.1)));
            i = i + 1;
        }
        r
    }
}

pub proof fn lemma_body_lookup(m: BodyMaskFieldsSearchMap, fields: Seq<Seq<char>>, name: Seq<char>)
    requires
        m.holds(fields),
    ensures
        m.spec_get(quoted(name)) == match last_position(fields, name) {
            Some(p) => Some((name, p)),
            None => None::<(Seq<char>, usize)>,
        },
{
    assert forall|j: int| 0 <= j < fields.len() implies #[trigger] m.entries()[j] == (quoted(fields[j]), (fields[j], j as usize)) by {
        assert(m.names()[j] == fields[j]);
    }
    lemma_lookup_quoted(m.entries(), fields, name);
}

proof fn lemma_lookup_quoted(entries: Seq<(Seq<char>, (Seq<char>, usize))>, fields: Seq<Seq<char>>, name: Seq<char>)
    requires
        entries.len() == fields.len(),
        forall|j: int| 0 <= j < fields.len() ==> #[trigger] entries[j] == (quoted(fields[j]), (fields[j], j as usize)),
    ensures
        lookup_last(entries, quoted(name)) == match last_position(fields, name) {
            Some(p) => Some((name, p)),
            None => None::<(Seq<char>, usize)>,
        },
    decreases fields.len(),
{
    if fields.len() > 0 {
        let n = fields.len() - 1;
        assert(entries.last() == entries[n]);
        if quoted(fields.last()) == quoted(name) {
            lemma_quoted_injective(fields.last(), name);
        }
        assert forall|j: int| 0 <= j < fields.drop_last().len() implies #[trigger] entries.drop_last()[j] == (quoted(fields.drop_last()[j]), (fields.drop_last()[j], j as usize)) by {
            assert(entries[j] == (quoted(fields[j]), (fields[j], j as usize)));
        }
        lemma_lookup_quoted(entries.drop_last(), fields.drop_last(), name);
    }
}

/// Finds a flat field (a header, a cookie, a query parameter) by name: the
/// position of its last configuration.
#[derive(Debug, Clone)]
pub struct GenericMaskFieldsSearchMap(Vec<(String, usize)>);

impl GenericMaskFieldsSearchMap {
    /// The entries, in configuration order.
    pub closed spec fn entries(&self) -> Seq<(Seq<char>, usize)> {
        self.0@.map_values(|e: (String, usize)| (e.0@, e.1))
    }

    /// The names the table was built from.
    pub open spec fn names(&self) -> Seq<Seq<char>> {
        self.entries().map_values(|e: (Seq<char>, usize)| e.0)
    }

    /// Whether the table holds `fields`, each with its position.
    pub open spec fn holds(&self, fields: Seq<Seq<char>>) -> bool {
        &&& self.entries().len() == fields.len()
        &&& forall|j: int| 0 <= j < fields.len() ==> #[trigger] self.entries()[j] == (fields[j], j as usize)
    }

    /// The position that the table gives for `field`.
    pub open spec fn spec_get(&self, field: Seq<char>) -> Option<usize> {
        lookup_last(self.entries(), field)
    }

    /// The table of `fields`.
    pub fn new(fields: &Fields) -> (r: GenericMaskFieldsSearchMap)
        ensures
            r.holds(fields.names()),
    {
        let mut v: Vec<(String, usize)> = Vec::new();
        let mut i: usize = 0;
        while i < fields.len()
            invariant
                i <= fields.names().len(),
                v@.len() == i,
                forall|j: int| 0 <= j < i ==> (#[trigger] v@[j].0@, v@[j].1) == (fields.names()[j], j as usize),
            decreases fields.names().len() - i,
        {
            v.push((fields.get(i).clone(), i));
            i = i + 1;
        }
        GenericMaskFieldsSearchMap(v)
    }

    /// The position of the last configuration of `field`, if it is configured.
    pub fn get(&self, field: &str) -> (r: Option<usize>)
        ensures
            r == self.spec_get(field@),
    {
        let key = chars_of(field);
        let mut j = self.0.len();
        assert(self.entries().take(j as int) =~= self.entries());
        while j > 0
            invariant
                j <= self.0@.len(),
                key@ == field@,
                lookup_last(self.entries(), key@) == lookup_last(self.entries().take(j as int), key@),
            decreases j,
        {
            let entry = &self.0[j - 1];
            assert(self.entries().take(j as int).last() == self.entries()[j - 1]);
            assert(self.entries()[j - 1] == (entry.0@, entry.1));
            assert(self.entries().take(j as int).drop_last() =~= self.entries().take(j - 1));
            let name = chars_of(entry.0.as_str());
            if same_chars(&name, &key) {
                assert(self.entries().take(j as int).len() == j);
                assert(lookup_last(self.entries().take(j as int), key@) == Some(self.entries()[j - 1].1));
                return Some(entry.1);
            }
            j = j - 1;
        }
        None
    }

    pub fn len(&self) -> (r: usize)
        ensures
            r == self.entries().len(),
    {
        self.0.len()
    }

    /// The name of the `j`-th entry.
    pub fn name_at(&self, j: usize) -> (r: &String)
        requires
            j < self.entries().len(),
        ensures
            r@ == self.entries()[j as int].0,
    {
        &self.0[j].0
    }

    /// The entries: each name with its position.
    pub fn into_iter(self) -> (r: Vec<(String, usize)>)
        ensures
            r@.len() == self.entries().len(),
            forall|j: int| 0 <= j < r@.len() ==> (#[trigger] r@[j].0@, r@[j].1) == self.entries()[j],
    {
        self.0
    }
}

} // verus!
