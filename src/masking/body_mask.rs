//! Masking of string and number fields in JSON bodies.
use vstd::prelude::*;
use crate::text::{chars_of, decimal, decimal_of, string_of};
use super::field_scan::{mask_fields, masked_from, views_of, ValueKind};
use super::fields::{last_position, quoted, BodyMaskFieldsSearchMap, Fields, lemma_body_lookup};
use super::option::{NumberMaskingOption, StringMaskingOption};

verus! {

/// A field name that cannot be compiled into a rule set.
#[derive(Debug)]
pub enum Error {
    /// A string field rule names an empty field.
    StringField(String),
    /// A number field rule names an empty field.
    NumberField(String),
}

/// The names of name/value pairs.
pub open spec fn pair_names<V>(pairs: Seq<(String, V)>) -> Seq<Seq<char>> {
    pairs.map_values(|p: (String, V)| p.0@)
}

pub open spec fn pair_values(pairs: Seq<(String, String)>) -> Seq<String> {
    pairs.map_values(|p: (String, String)| p.1)
}

pub open spec fn pair_numbers(pairs: Seq<(String, i32)>) -> Seq<i32> {
    pairs.map_values(|p: (String, i32)| p.1)
}

/// Whether `r` lists a rule set: each name with the mask its value gets,
/// as text (a string mask is listed without its quotes).
pub open spec fn lists_body_rules(r: Seq<(String, String)>, rules: Option<(Seq<Seq<char>>, Seq<Seq<char>>)>, quoted_masks: bool) -> bool {
    match rules {
        None => r.len() == 0,
        Some((names, repls)) => {
            &&& r.len() == names.len()
            &&& forall|j: int| 0 <= j < names.len() ==> {
                &&& (#[trigger] r[j]).0@ == names[j]
                &&& repls[j] == if quoted_masks { quoted(r[j].1@) } else { r[j].1@ }
            }
        },
    }
}

/// Whether some name is empty.
pub open spec fn has_empty_name(names: Seq<Seq<char>>) -> bool {
    exists|k: int| 0 <= k < names.len() && (#[trigger] names[k]).len() == 0
}

/// The text that replaces the value of the `k`-th string field: the mask in
/// quotes, chosen for the field's name and its last configured position.
pub open spec fn string_repl(option: StringMaskingOption, names: Seq<Seq<char>>, k: int) -> Seq<char> {
    quoted(option.replacement(names[k], last_position(names, names[k])))
}

/// The text that replaces the value of the `k`-th number field: the mask in
/// decimal, chosen for the field's name and its last configured position.
pub open spec fn number_repl(option: NumberMaskingOption, names: Seq<Seq<char>>, k: int) -> Seq<char> {
    decimal(option.replacement(names[k], last_position(names, names[k])) as int)
}

pub open spec fn string_repls(option: StringMaskingOption, names: Seq<Seq<char>>) -> Seq<Seq<char>> {
    Seq::new(names.len(), |k: int| string_repl(option, names, k))
}

pub open spec fn number_repls(option: NumberMaskingOption, names: Seq<Seq<char>>) -> Seq<Seq<char>> {
    Seq::new(names.len(), |k: int| number_repl(option, names, k))
}

/// A compiled rule set: the names, each as characters, and the table that
/// finds a name's configured position.
#[derive(Debug, Clone)]
pub struct BodyMaskInner<T> {
    pattern: Vec<Vec<char>>,
    fields: BodyMaskFieldsSearchMap,
    mask_option: T,
}

impl<T> BodyMaskInner<T> {
    /// The configured names.
    pub closed spec fn names(&self) -> Seq<Seq<char>> {
        views_of(self.pattern@)
    }

    pub closed spec fn option(&self) -> T {
        self.mask_option
    }

    pub closed spec fn wf(&self) -> bool {
        self.fields.holds(views_of(self.pattern@))
    }

    fn new(fields: Fields, mask_option: T) -> (r: Self)
        ensures
            r.wf(),
            r.names() == fields.names(),
            r.option() == mask_option,
    {
        let table = BodyMaskFieldsSearchMap::new(&fields);
        let mut pattern: Vec<Vec<char>> = Vec::new();
        let mut i: usize = 0;
        while i < fields.len()
            invariant
                i <= fields.names().len(),
                pattern@.len() == i,
                forall|j: int| 0 <= j < i ==> (#[trigger] pattern@[j])@ == fields.names()[j],
            decreases fields.names().len() - i,
        {
            pattern.push(chars_of(fields.get(i).as_str()));
            i = i + 1;
        }
        assert(views_of(pattern@) =~= fields.names());
        BodyMaskInner { pattern, fields: table, mask_option }
    }
}

impl BodyMaskInner<StringMaskingOption> {
    /// The replacement texts, one per configured name.
    pub open spec fn repls(&self) -> Seq<Seq<char>> {
        string_repls(self.option(), self.names())
    }

    fn replacements(&self) -> (r: Vec<Vec<char>>)
        requires
            self.wf(),
        ensures
            views_of(r@) == self.repls(),
    {
        let mut r: Vec<Vec<char>> = Vec::new();
        let mut k: usize = 0;
        while k < self.pattern.len()
            invariant
                self.wf(),
                k <= self.pattern@.len(),
                r@.len() == k,
                forall|j: int| 0 <= j < k ==> (#[trigger] r@[j])@ == self.repls()[j],
            decreases self.pattern@.len() - k,
        {
            let key = quote_chars(&self.pattern[k]);
            let key_str = string_of(key.as_slice());
            proof {
                lemma_body_lookup(self.fields, self.names(), self.names()[k as int]);
                crate::masking::fields::lemma_last_position_found(self.names(), k as int);
            }
            let (name, index) = self.fields.get(key_str.as_str()).unwrap();
            let mask = self.mask_option.get_mask_replacement(name.as_str(), Some(index));
            r.push(quote_chars(&chars_of(mask)));
            k = k + 1;
        }
        assert(views_of(r@) =~= self.repls());
        r
    }

    /// The name of every field with the replacement its value gets.
    fn metadata(&self) -> (r: Vec<(String, String)>)
        requires
            self.wf(),
        ensures
            r@.len() == self.names().len(),
            forall|j: int| 0 <= j < r@.len() ==> (#[trigger] r@[j]).0@ == self.names()[j]
                && r@[j].1@ == self.option().replacement(self.names()[j], last_position(self.names(), self.names()[j])),
    {
        let mut r: Vec<(String, String)> = Vec::new();
        let mut k: usize = 0;
        while k < self.pattern.len()
            invariant
                self.wf(),
                k <= self.pattern@.len(),
                r@.len() == k,
                forall|j: int| 0 <= j < k ==> (#[trigger] r@[j]).0@ == self.names()[j]
                    && r@[j].1@ == self.option().replacement(self.names()[j], last_position(self.names(), self.names()[j])),
            decreases self.pattern@.len() - k,
        {
            let key = quote_chars(&self.pattern[k]);
            let key_str = string_of(key.as_slice());
            proof {
                lemma_body_lookup(self.fields, self.names(), self.names()[k as int]);
                crate::masking::fields::lemma_last_position_found(self.names(), k as int);
            }
            let (name, index) = self.fields.get(key_str.as_str()).unwrap();
            let mask = self.mask_option.get_mask_replacement(name.as_str(), Some(index));
            r.push((name, string_of(chars_of(mask).as_slice())));
            k = k + 1;
        }
        r
    }
}

impl BodyMaskInner<NumberMaskingOption> {
    /// The replacement texts, one per configured name.
    pub open spec fn repls(&self) -> Seq<Seq<char>> {
        number_repls(self.option(), self.names())
    }

    fn replacements(&self) -> (r: Vec<Vec<char>>)
        requires
            self.wf(),
        ensures
            views_of(r@) == self.repls(),
    {
        let mut r: Vec<Vec<char>> = Vec::new();
        let mut k: usize = 0;
        while k < self.pattern.len()
            invariant
                self.wf(),
                k <= self.pattern@.len(),
                r@.len() == k,
                forall|j: int| 0 <= j < k ==> (#[trigger] r@[j])@ == self.repls()[j],
            decreases self.pattern@.len() - k,
        {
            let key = quote_chars(&self.pattern[k]);
            let key_str = string_of(key.as_slice());
            proof {
                lemma_body_lookup(self.fields, self.names(), self.names()[k as int]);
                crate::masking::fields::lemma_last_position_found(self.names(), k as int);
            }
            let (name, index) = self.fields.get(key_str.as_str()).unwrap();
            let mask = self.mask_option.get_mask_replacement(name.as_str(), Some(index));
            r.push(decimal_of(mask));
            k = k + 1;
        }
        assert(views_of(r@) =~= self.repls());
        r
    }

    /// The name of every field with the replacement its value gets.
    fn metadata(&self) -> (r: Vec<(String, String)>)
        requires
            self.wf(),
        ensures
            r@.len() == self.names().len(),
            forall|j: int| 0 <= j < r@.len() ==> (#[trigger] r@[j]).0@ == self.names()[j]
                && r@[j].1@ == decimal(self.option().replacement(self.names()[j], last_position(self.names(), self.names()[j])) as int),
    {
        let mut r: Vec<(String, String)> = Vec::new();
        let mut k: usize = 0;
        while k < self.pattern.len()
            invariant
                self.wf(),
                k <= self.pattern@.len(),
                r@.len() == k,
                forall|j: int| 0 <= j < k ==> (#[trigger] r@[j]).0@ == self.names()[j]
                    && r@[j].1@ == decimal(self.option().replacement(self.names()[j], last_position(self.names(), self.names()[j])) as int),
            decreases self.pattern@.len() - k,
        {
            let key = quote_chars(&self.pattern[k]);
            let key_str = string_of(key.as_slice());
            proof {
                lemma_body_lookup(self.fields, self.names(), self.names()[k as int]);
                crate::masking::fields::lemma_last_position_found(self.names(), k as int);
            }
            let (name, index) = self.fields.get(key_str.as_str()).unwrap();
            let mask = self.mask_option.get_mask_replacement(name.as_str(), Some(index));
            r.push((name, string_of(decimal_of(mask).as_slice())));
            k = k + 1;
        }
        r
    }
}

fn quote_chars(name: &Vec<char>) -> (r: Vec<char>)
    ensures
        r@ == quoted(name@),
{
    let mut r: Vec<char> = Vec::new();
    r.push('"');
    let mut i: usize = 0;
    while i < name.len()
        invariant
            i <= name@.len(),
            r@ == seq!['"'] + name@.take(i as int),
        decreases name@.len() - i,
    {
        r.push(name[i]);
        assert(name@.take(i as int).push(name@[i as int]) =~= name@.take(i as int + 1));
        i = i + 1;
    }
    r.push('"');
    assert(name@.take(name@.len() as int) =~= name@);
    assert(r@ =~= quoted(name@));
    r
}

/// A rule set applied to a text: with no rule set the text is unchanged.
pub open spec fn apply_rules(t: Seq<char>, rules: Option<(Seq<Seq<char>>, Seq<Seq<char>>)>, kind: ValueKind) -> Seq<char> {
    match rules {
        Some((names, repls)) => masked_from(t, 0, names, kind, repls),
        None => t,
    }
}

/// The rules that mask the fields of a request or a response body.
#[derive(Debug, Clone)]
pub struct BodyMask {
    string_masks: Option<BodyMaskInner<StringMaskingOption>>,
    number_masks: Option<BodyMaskInner<NumberMaskingOption>>,
}

impl BodyMask {
    /// The string rules: the names and the text that replaces each one's value.
    pub closed spec fn string_rules(&self) -> Option<(Seq<Seq<char>>, Seq<Seq<char>>)> {
        match self.string_masks {
            Some(inner) => Some((inner.names(), inner.repls())),
            None => None,
        }
    }

    /// The number rules: the names and the text that replaces each one's value.
    pub closed spec fn number_rules(&self) -> Option<(Seq<Seq<char>>, Seq<Seq<char>>)> {
        match self.number_masks {
            Some(inner) => Some((inner.names(), inner.repls())),
            None => None,
        }
    }

    pub closed spec fn wf(&self) -> bool {
        &&& (self.string_masks matches Some(inner) ==> inner.wf())
        &&& (self.number_masks matches Some(inner) ==> inner.wf())
    }

    /// The body text `t` once masked: string fields first, then number fields.
    pub open spec fn masked(&self, t: Seq<char>) -> Seq<char> {
        apply_rules(apply_rules(t, self.string_rules(), ValueKind::Text), self.number_rules(), ValueKind::Number)
    }

    /// No rules at all.
    pub fn new() -> (r: BodyMask)
        ensures
            r.wf(),
            r.string_rules() is None,
            r.number_rules() is None,
    {
        BodyMask { string_masks: None, number_masks: None }
    }

    /// Rules from pairs of a field name and its mask: each field's value is
    /// replaced by its own mask. An empty name is refused.
    pub fn try_new(string_field_names: Vec<(String, String)>, number_field_names: Vec<(String, i32)>) -> (r: Result<BodyMask, Error>)
        ensures
            r is Err <==> (has_empty_name(pair_names(string_field_names@)) || has_empty_name(pair_names(number_field_names@))),
            r matches Ok(m) ==> {
                &&& m.wf()
                &&& (string_field_names@.len() == 0 ==> m.string_rules() is None)
                &&& (string_field_names@.len() > 0 ==> (m.string_rules() matches Some((names, repls)) && names == pair_names(string_field_names@)
                    && exists|masks: Vec<String>| masks@ == pair_values(string_field_names@)
                        && repls == string_repls(StringMaskingOption::MultipleMasks(masks), names)))
                &&& (number_field_names@.len() == 0 ==> m.number_rules() is None)
                &&& (number_field_names@.len() > 0 ==> (m.number_rules() matches Some((names, repls)) && names == pair_names(number_field_names@)
                    && exists|masks: Vec<i32>| masks@ == pair_numbers(number_field_names@)
                        && repls == number_repls(NumberMaskingOption::MultipleMasks(masks), names)))
            },
    {
        let mut body_mask = BodyMask::new();
        let mut string_fields: Vec<String> = Vec::new();
        let mut string_masks: Vec<String> = Vec::new();
        let mut i: usize = 0;
        while i < string_field_names.len()
            invariant
                i <= string_field_names@.len(),
                string_fields@.len() == i,
                string_masks@.len() == i,
                forall|j: int| 0 <= j < i ==> (#[trigger] string_fields@[j]) == string_field_names@[j].0,
                forall|j: int| 0 <= j < i ==> (#[trigger] string_masks@[j]) == string_field_names@[j].1,
            decreases string_field_names@.len() - i,
        {
            string_fields.push(string_field_names[i].0.clone());
            string_masks.push(string_field_names[i].1.clone());
            i = i + 1;
        }
        assert(string_masks@ =~= pair_values(string_field_names@));
        let ghost smasks = string_masks;
        let fields = Fields::new(string_fields);
        assert(fields.names() =~= pair_names(string_field_names@));
        match body_mask.set_string_field_masks(fields, StringMaskingOption::MultipleMasks(string_masks)) {
            Ok(()) => {},
            Err(e) => {
                return Err(e);
            },
        }
        let mut number_fields: Vec<String> = Vec::new();
        let mut number_masks: Vec<i32> = Vec::new();
        let mut i: usize = 0;
        while i < number_field_names.len()
            invariant
                i <= number_field_names@.len(),
                number_fields@.len() == i,
                number_masks@.len() == i,
                forall|j: int| 0 <= j < i ==> (#[trigger] number_fields@[j]) == number_field_names@[j].0,
                forall|j: int| 0 <= j < i ==> (#[trigger] number_masks@[j]) == number_field_names@[j].1,
            decreases number_field_names@.len() - i,
        {
            number_fields.push(number_field_names[i].0.clone());
            number_masks.push(number_field_names[i].1);
            i = i + 1;
        }
        assert(number_masks@ =~= pair_numbers(number_field_names@));
        let fields = Fields::new(number_fields);
        assert(fields.names() =~= pair_names(number_field_names@));
        let ghost nmasks = number_masks;
        match body_mask.set_number_field_masks(fields, NumberMaskingOption::MultipleMasks(number_masks)) {
            Ok(()) => {},
            Err(e) => {
                return Err(e);
            },
        }
        Ok(body_mask)
    }

    /// Whether no rule is set.
    pub fn is_empty(&self) -> (r: bool)
        ensures
            r == (self.string_rules() is None && self.number_rules() is None),
    {
        self.string_masks.is_none() && self.number_masks.is_none()
    }

    /// Sets the string rules: each of `fields` gets its value replaced by the
    /// mask that `masks_option` gives it. No fields means no string rules.
    /// An empty name is refused and the rules stay as they were.
    pub fn set_string_field_masks(&mut self, fields: Fields, masks_option: StringMaskingOption) -> (r: Result<(), Error>)
        requires
            old(self).wf(),
        ensures
            final(self).wf(),
            r is Err <==> has_empty_name(fields.names()),
            r is Err ==> *final(self) == *old(self),
            r is Ok ==> final(self).number_rules() == old(self).number_rules(),
            r is Ok && fields.names().len() == 0 ==> final(self).string_rules() is None,
            r is Ok && fields.names().len() > 0 ==> final(self).string_rules() == Some(
                (fields.names(), string_repls(masks_option, fields.names())),
            ),
    {
        match first_empty_name(&fields) {
            Some(k) => {
                return Err(Error::StringField(fields.get(k).clone()));
            },
            None => {},
        }
        if fields.is_empty() {
            self.string_masks = None;
        } else {
            self.string_masks = Some(BodyMaskInner::new(fields, masks_option));
        }
        Ok(())
    }

    /// Sets the number rules: each of `fields` gets its value replaced by the
    /// mask that `masks_option` gives it. No fields means no number rules.
    /// An empty name is refused and the rules stay as they were.
    pub fn set_number_field_masks(&mut self, fields: Fields, masks_option: NumberMaskingOption) -> (r: Result<(), Error>)
        requires
            old(self).wf(),
        ensures
            final(self).wf(),
            r is Err <==> has_empty_name(fields.names()),
            r is Err ==> *final(self) == *old(self),
            r is Ok ==> final(self).string_rules() == old(self).string_rules(),
            r is Ok && fields.names().len() == 0 ==> final(self).number_rules() is None,
            r is Ok && fields.names().len() > 0 ==> final(self).number_rules() == Some(
                (fields.names(), number_repls(masks_option, fields.names())),
            ),
    {
        match first_empty_name(&fields) {
            Some(k) => {
                return Err(Error::NumberField(fields.get(k).clone()));
            },
            None => {},
        }
        if fields.is_empty() {
            self.number_masks = None;
        } else {
            self.number_masks = Some(BodyMaskInner::new(fields, masks_option));
        }
        Ok(())
    }

    /// The body with its fields masked.
    pub fn mask(&self, body: &str) -> (r: String)
        requires
            self.wf(),
        ensures
            r@ == self.masked(body@),
    {
        let text = chars_of(body);
        let text = match &self.string_masks {
            Some(inner) => {
                let repls = inner.replacements();
                assert(views_of(repls@).len() == repls@.len());
                assert(views_of(inner.pattern@).len() == inner.pattern@.len());
                mask_fields(&text, &inner.pattern, ValueKind::Text, &repls)
            },
            None => text,
        };
        let text = match &self.number_masks {
            Some(inner) => {
                let repls = inner.replacements();
                assert(views_of(repls@).len() == repls@.len());
                assert(views_of(inner.pattern@).len() == inner.pattern@.len());
                mask_fields(&text, &inner.pattern, ValueKind::Number, &repls)
            },
            None => text,
        };
        string_of(text.as_slice())
    }

    /// For each rule set, every masked name with the replacement its value
    /// gets: string rules first, then number rules with the masks in decimal.
    pub fn metadata(&self) -> (r: (Vec<(String, String)>, Vec<(String, String)>))
        requires
            self.wf(),
        ensures
            lists_body_rules(r.0@, self.string_rules(), true),
            lists_body_rules(r.1@, self.number_rules(), false),
    {
        let strings = match &self.string_masks {
            Some(inner) => inner.metadata(),
            None => Vec::new(),
        };
        let numbers = match &self.number_masks {
            Some(inner) => inner.metadata(),
            None => Vec::new(),
        };
        (strings, numbers)
    }
}

/// The position of the first empty name, if any.
fn first_empty_name(fields: &Fields) -> (r: Option<usize>)
    ensures
        r is None <==> !has_empty_name(fields.names()),
        r matches Some(k) ==> k < fields.names().len() && fields.names()[k as int].len() == 0,
{
    let mut k: usize = 0;
    while k < fields.len()
        invariant
            k <= fields.names().len(),
            forall|j: int| 0 <= j < k ==> (#[trigger] fields.names()[j]).len() > 0,
        decreases fields.names().len() - k,
    {
        if fields.get(k).as_str().unicode_len() == 0 {
            return Some(k);
        }
        k = k + 1;
    }
    None
}

} // verus!
