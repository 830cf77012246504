//! Masking of flat values: query parameters, headers and cookies.
use vstd::prelude::*;
use std::marker::PhantomData;
use super::fields::{last_position, lemma_lookup_positions, Fields, GenericMaskFieldsSearchMap};
use super::option::StringMaskingOption;

verus! {

/// Marks the rules for query string parameters.
#[derive(Debug, Clone, Default)]
pub struct QueryStringMask;

/// Marks the rules for request headers.
#[derive(Debug, Clone, Default)]
pub struct RequestHeaderMask;

/// Marks the rules for response headers.
#[derive(Debug, Clone, Default)]
pub struct ResponseHeaderMask;

/// Marks the rules for request cookies.
#[derive(Debug, Clone, Default)]
pub struct RequestCookieMask;

/// Marks the rules for response cookies.
#[derive(Debug, Clone, Default)]
pub struct ResponseCookieMask;

/// The value that a flat field keeps once masked by the rules `names` and
/// `option`: a configured name gets its replacement, chosen for its last
/// configured position; any other field keeps its value.
pub open spec fn flat_masked(names: Seq<Seq<char>>, option: StringMaskingOption, field: Seq<char>, value: Seq<char>) -> Seq<char> {
    match last_position(names, field) {
        Some(i) => option.replacement(field, Some(i)),
        None => value,
    }
}

/// Whether `r` lists the rules of `mask`: each configured name with the
/// replacement its value gets.
pub open spec fn lists_rules<T>(r: Seq<(String, String)>, mask: GenericMask<T>) -> bool {
    match mask.rules() {
        None => r.len() == 0,
        Some((names, option)) => {
            &&& r.len() == names.len()
            &&& forall|j: int| 0 <= j < names.len() ==> {
                &&& (#[trigger] r[j]).0@ == names[j]
                &&& r[j].1@ == option.replacement(names[j], last_position(names, names[j]))
            }
        },
    }
}

/// Rules for one collection of flat fields; `T` tells which collection.
#[derive(Debug, Clone)]
pub struct GenericMask<T>(Option<GenericMaskInner<T>>);

impl<T> GenericMask<T> {
    /// The configured names and replacement strategy, if any rule is set.
    pub closed spec fn rules(&self) -> Option<(Seq<Seq<char>>, StringMaskingOption)> {
        match self.0 {
            Some(inner) => Some((inner.names(), inner.option())),
            None => None,
        }
    }

    pub closed spec fn wf(&self) -> bool {
        self.0 matches Some(inner) ==> inner.wf()
    }

    /// The value of `field` once masked.
    pub open spec fn masked(&self, field: Seq<char>, value: Seq<char>) -> Seq<char> {
        match self.rules() {
            Some((names, option)) => flat_masked(names, option, field, value),
            None => value,
        }
    }

    /// No rules.
    pub fn empty() -> (r: Self)
        ensures
            r.wf(),
            r.rules() is None,
    {
        GenericMask(None)
    }

    /// Rules that mask `fields` with `mask_option`.
    pub fn new(fields: Fields, mask_option: StringMaskingOption) -> (r: Self)
        ensures
            r.wf(),
            r.rules() == Some((fields.names(), mask_option)),
    {
        let inner = GenericMaskInner::new(fields, mask_option);
        GenericMask(Some(inner))
    }

    /// The value of `field` once masked.
    pub fn mask(&self, field: &str, value: &str) -> (r: String)
        requires
            self.wf(),
        ensures
            r@ == self.masked(field@, value@),
    {
        match &self.0 {
            Some(inner) => crate::text::string_of(crate::text::chars_of(inner.mask(field, value)).as_slice()),
            None => crate::text::string_of(crate::text::chars_of(value).as_slice()),
        }
    }

    /// Whether no rule is set.
    pub fn is_empty(&self) -> (r: bool)
        ensures
            r == self.rules() is None,
    {
        self.0.is_none()
    }

    /// Every configured name with the replacement its value gets.
    pub fn metadata(&self) -> (r: Vec<(String, String)>)
        requires
            self.wf(),
        ensures
            lists_rules(r@, *self),
    {
        match &self.0 {
            Some(inner) => inner.metadata(),
            None => Vec::new(),
        }
    }
}

impl<T> Default for GenericMask<T> {
    fn default() -> (r: Self)
        ensures
            r.wf(),
            r.rules() is None,
    {
        GenericMask(None)
    }
}

/// A rule set for flat fields: the table of configured names and the
/// replacement strategy.
#[derive(Debug)]
pub struct GenericMaskInner<T> {
    phantom: PhantomData<T>,
    fields: GenericMaskFieldsSearchMap,
    mask_option: StringMaskingOption,
}

impl<T> Clone for GenericMaskInner<T> {
    fn clone(&self) -> (r: Self) {
        GenericMaskInner { phantom: PhantomData, fields: self.fields.clone(), mask_option: self.mask_option.clone() }
    }
}

impl<T> GenericMaskInner<T> {
    pub closed spec fn names(&self) -> Seq<Seq<char>> {
        self.fields.names()
    }

    pub closed spec fn option(&self) -> StringMaskingOption {
        self.mask_option
    }

    pub closed spec fn wf(&self) -> bool {
        &&& self.fields.holds(self.fields.names())
        &&& self.fields.names().len() <= usize::MAX
    }

    /// Rules that mask `fields` with `mask_option`.
    pub fn new(fields: Fields, mask_option: StringMaskingOption) -> (r: Self)
        ensures
            r.wf(),
            r.names() == fields.names(),
            r.option() == mask_option,
    {
        let table = GenericMaskFieldsSearchMap::new(&fields);
        let _ = fields.len();
        assert(table.names() =~= fields.names()) by {
            assert forall|j: int| 0 <= j < fields.names().len() implies table.names()[j] == fields.names()[j] by {
                assert(table.entries()[j] == (fields.names()[j], j as usize));
            }
        }
        GenericMaskInner { phantom: PhantomData, fields: table, mask_option }
    }

    fn mask<'a>(&'a self, field: &str, value: &'a str) -> (r: &'a str)
        requires
            self.wf(),
        ensures
            r@ == flat_masked(self.names(), self.option(), field@, value@),
    {
        proof {
            lemma_lookup_positions(self.fields.entries(), self.names(), field@);
        }
        match self.fields.get(field) {
            Some(field_index) => self.mask_option.get_mask_replacement(field, Some(field_index)),
            None => value,
        }
    }

    fn metadata(&self) -> (r: Vec<(String, String)>)
        requires
            self.wf(),
        ensures
            r@.len() == self.names().len(),
            forall|j: int| 0 <= j < self.names().len() ==> {
                &&& (#[trigger] r@[j]).0@ == self.names()[j]
                &&& r@[j].1@ == self.option().replacement(self.names()[j], last_position(self.names(), self.names()[j]))
            },
    {
        let mut r: Vec<(String, String)> = Vec::new();
        let mut k: usize = 0;
        while k < self.fields.len()
            invariant
                self.wf(),
                k <= self.names().len(),
                r@.len() == k,
                forall|j: int| 0 <= j < k ==> {
                    &&& (#[trigger] r@[j]).0@ == self.names()[j]
                    &&& r@[j].1@ == self.option().replacement(self.names()[j], last_position(self.names(), self.names()[j]))
                },
            decreases self.names().len() - k,
        {
            let name = self.fields.name_at(k).clone();
            proof {
                assert(self.fields.entries()[k as int] == (self.names()[k as int], k as usize));
                lemma_lookup_positions(self.fields.entries(), self.names(), name@);
            }
            let index = self.fields.get(name.as_str());
            proof {
                crate::masking::fields::lemma_last_position_found(self.names(), k as int);
            }
            let mask = self.mask_option.get_mask_replacement(name.as_str(), index);
            let mask = crate::text::string_of(crate::text::chars_of(mask).as_slice());
            r.push((name, mask));
            k = k + 1;
        }
        r
    }
}

} // verus!
