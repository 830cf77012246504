//! Replacement strategies: which value stands in for a masked field.
use vstd::prelude::*;

verus! {

/// The replacement for a masked number when no mask is configured.
pub const DEFAULT_NUMBER_MASK: i32 = -12321;

/// The replacement for a masked string when no mask is configured.
pub open spec fn default_string_mask() -> Seq<char> {
    seq!['_', '_', 'm', 'a', 's', 'k', 'e', 'd', '_', '_']
}

/// The default string mask, as a string slice.
pub fn default_string_mask_str() -> (r: &'static str)
    ensures
        r@ == default_string_mask(),
{
    let r = "__masked__";
    proof {
        reveal_strlit("__masked__");
    }
    assert(r@ =~= default_string_mask());
    r
}

/// The value paired with `field` in `pairs`: the first pair whose name is
/// `field`, if any.
pub open spec fn assoc_lookup<V>(pairs: Seq<(String, V)>, field: Seq<char>) -> Option<V>
    decreases pairs.len(),
{
    if pairs.len() == 0 {
        None
    } else if pairs[0].0@ == field {
        Some(pairs[0].1)
    } else {
        assoc_lookup(pairs.drop_first(), field)
    }
}

/// How masked string values are replaced.
#[derive(Debug, Clone)]
pub enum StringMaskingOption {
    /// Every field gets the default mask.
    DefaultMask,
    /// Every field gets this mask.
    SingleMask(String),
    /// The field configured at position `i` gets the `i`-th mask; the default
    /// past the end of the list.
    MultipleMasks(Vec<String>),
    /// Each field gets the mask paired with its name; the default otherwise.
    AssociatedMasks(Vec<(String, String)>),
}

impl StringMaskingOption {
    /// The replacement for `field`, configured at position `index`.
    pub open spec fn replacement(&self, field: Seq<char>, index: Option<usize>) -> Seq<char> {
        match self {
            StringMaskingOption::DefaultMask => default_string_mask(),
            StringMaskingOption::SingleMask(mask) => mask@,
            StringMaskingOption::MultipleMasks(masks) => match index {
                Some(i) => if (i as int) < masks@.len() {
                    masks@[i as int]@
                } else {
                    default_string_mask()
                },
                None => default_string_mask(),
            },
            StringMaskingOption::AssociatedMasks(pairs) => match assoc_lookup(pairs@, field) {
                Some(mask) => mask@,
                None => default_string_mask(),
            },
        }
    }

    /// The replacement for `field`, configured at position `maybe_index`.
    pub fn get_mask_replacement<'a>(&'a self, field: &str, maybe_index: Option<usize>) -> (r: &'a str)
        ensures
            r@ == self.replacement(field@, maybe_index),
    {
        match self {
            StringMaskingOption::DefaultMask => default_string_mask_str(),
            StringMaskingOption::SingleMask(mask) => mask.as_str(),
            StringMaskingOption::MultipleMasks(masks) => match maybe_index {
                Some(index) => if index < masks.len() {
                    masks[index].as_str()
                } else {
                    default_string_mask_str()
                },
                None => default_string_mask_str(),
            },
            StringMaskingOption::AssociatedMasks(pairs) => {
                let name = crate::text::chars_of(field);
                match find_pair(pairs, &name) {
                    Some(j) => pairs[j].1.as_str(),
                    None => default_string_mask_str(),
                }
            },
        }
    }
}

/// The position of the first pair named `field`, so that
/// `assoc_lookup` finds its value.
pub fn find_pair<V>(pairs: &Vec<(String, V)>, field: &Vec<char>) -> (r: Option<usize>)
    ensures
        match r {
            Some(j) => j < pairs@.len() && assoc_lookup(pairs@, field@) == Some(pairs@[j as int].1),
            None => assoc_lookup(pairs@, field@) is None,
        },
{
    let mut j: usize = 0;
    assert(pairs@.skip(0) =~= pairs@);
    while j < pairs.len()
        invariant
            j <= pairs@.len(),
            assoc_lookup(pairs@, field@) == assoc_lookup(pairs@.skip(j as int), field@),
        decreases pairs@.len() - j,
    {
        let name = crate::text::chars_of(pairs[j].0.as_str());
        assert(pairs@.skip(j as int)[0] == pairs@[j as int]);
        assert(pairs@.skip(j as int).drop_first() =~= pairs@.skip(j as int + 1));
        if crate::text::same_chars(&name, field) {
            return Some(j);
        }
        j = j + 1;
    }
    None
}

/// Replacement resolution: the default strategy always gives the default
/// mask; a single mask is given whatever the field and its position; a list
/// gives the mask at the field's position, and the default at and past the
/// end of the list or without a position; a map gives the mask paired with
/// the field's name, and the default for a name it does not hold.
pub proof fn lemma_replacement_resolution(
    field: Seq<char>,
    index: Option<usize>,
    mask: String,
    masks: Vec<String>,
    pairs: Vec<(String, String)>,
)
    ensures
        StringMaskingOption::DefaultMask.replacement(field, index) == default_string_mask(),
        StringMaskingOption::SingleMask(mask).replacement(field, index) == mask@,
        forall|i: usize| index == Some(i) && i < masks@.len() ==> StringMaskingOption::MultipleMasks(masks).replacement(field, index)
            == (#[trigger] masks@[i as int])@,
        (forall|i: usize| index == Some(i) ==> i >= masks@.len())
            ==> StringMaskingOption::MultipleMasks(masks).replacement(field, index) == default_string_mask(),
        pairs@.len() > 0 && pairs@[0].0@ == field ==> StringMaskingOption::AssociatedMasks(pairs).replacement(field, index)
            == pairs@[0].1@,
        (forall|j: int| 0 <= j < pairs@.len() ==> (#[trigger] pairs@[j]).0@ != field)
            ==> StringMaskingOption::AssociatedMasks(pairs).replacement(field, index) == default_string_mask(),
{
    if forall|j: int| 0 <= j < pairs@.len() ==> (#[trigger] pairs@[j]).0@ != field {
        lemma_assoc_lookup_absent(pairs@, field);
    }
}

pub proof fn lemma_assoc_lookup_absent<V>(pairs: Seq<(String, V)>, field: Seq<char>)
    requires
        forall|j: int| 0 <= j < pairs.len() ==> (#[trigger] pairs[j]).0@ != field,
    ensures
        assoc_lookup(pairs, field) is None,
    decreases pairs.len(),
{
    if pairs.len() > 0 {
        assert(pairs[0].0@ != field);
        assert forall|j: int| 0 <= j < pairs.drop_first().len() implies (#[trigger] pairs.drop_first()[j]).0@ != field by {
            assert(pairs.drop_first()[j] == pairs[j + 1]);
        }
        lemma_assoc_lookup_absent(pairs.drop_first(), field);
    }
}

/// How masked number values are replaced.
#[derive(Debug, Clone)]
pub enum NumberMaskingOption {
    /// Every field gets the default mask.
    DefaultMask,
    /// Every field gets this mask.
    SingleMask(i32),
    /// The field configured at position `i` gets the `i`-th mask; the default
    /// past the end of the list.
    MultipleMasks(Vec<i32>),
    /// Each field gets the mask paired with its name; the default otherwise.
    AssociatedMasks(Vec<(String, i32)>),
}

impl NumberMaskingOption {
    /// The replacement for `field`, configured at position `index`.
    pub open spec fn replacement(&self, field: Seq<char>, index: Option<usize>) -> i32 {
        match self {
            NumberMaskingOption::DefaultMask => DEFAULT_NUMBER_MASK,
            NumberMaskingOption::SingleMask(mask) => *mask,
            NumberMaskingOption::MultipleMasks(masks) => match index {
                Some(i) => if (i as int) < masks@.len() {
                    masks@[i as int]
                } else {
                    DEFAULT_NUMBER_MASK
                },
                None => DEFAULT_NUMBER_MASK,
            },
            NumberMaskingOption::AssociatedMasks(pairs) => match assoc_lookup(pairs@, field) {
                Some(mask) => mask,
                None => DEFAULT_NUMBER_MASK,
            },
        }
    }

    /// The replacement for `field`, configured at position `maybe_index`.
    pub fn get_mask_replacement(&self, field: &str, maybe_index: Option<usize>) -> (r: i32)
        ensures
            r == self.replacement(field@, maybe_index),
    {
        match self {
            NumberMaskingOption::DefaultMask => DEFAULT_NUMBER_MASK,
            NumberMaskingOption::SingleMask(mask) => *mask,
            NumberMaskingOption::MultipleMasks(masks) => match maybe_index {
                Some(index) => if index < masks.len() {
                    masks[index]
                } else {
                    DEFAULT_NUMBER_MASK
                },
                None => DEFAULT_NUMBER_MASK,
            },
            NumberMaskingOption::AssociatedMasks(pairs) => {
                let name = crate::text::chars_of(field);
                match find_pair(pairs, &name) {
                    Some(j) => pairs[j].1,
                    None => DEFAULT_NUMBER_MASK,
                }
            },
        }
    }
}

impl Default for StringMaskingOption {
    fn default() -> (r: Self)
        ensures
            r == StringMaskingOption::DefaultMask,
    {
        StringMaskingOption::DefaultMask
    }
}

impl From<String> for StringMaskingOption {
    fn from(mask: String) -> (r: Self) {
        StringMaskingOption::SingleMask(mask)
    }
}

impl vstd::std_specs::convert::FromSpecImpl<String> for StringMaskingOption {
    open spec fn obeys_from_spec() -> bool {
        true
    }

    open spec fn from_spec(mask: String) -> StringMaskingOption {
        StringMaskingOption::SingleMask(mask)
    }
}

impl From<Option<String>> for StringMaskingOption {
    fn from(maybe_mask: Option<String>) -> (r: Self) {
        match maybe_mask {
            Some(mask) => StringMaskingOption::SingleMask(mask),
            None => StringMaskingOption::DefaultMask,
        }
    }
}

impl vstd::std_specs::convert::FromSpecImpl<Option<String>> for StringMaskingOption {
    open spec fn obeys_from_spec() -> bool {
        true
    }

    open spec fn from_spec(maybe_mask: Option<String>) -> StringMaskingOption {
        match maybe_mask {
            Some(mask) => StringMaskingOption::SingleMask(mask),
            None => StringMaskingOption::DefaultMask,
        }
    }
}

impl From<Vec<String>> for StringMaskingOption {
    fn from(masks: Vec<String>) -> (r: Self) {
        StringMaskingOption::MultipleMasks(masks)
    }
}

impl vstd::std_specs::convert::FromSpecImpl<Vec<String>> for StringMaskingOption {
    open spec fn obeys_from_spec() -> bool {
        true
    }

    open spec fn from_spec(masks: Vec<String>) -> StringMaskingOption {
        StringMaskingOption::MultipleMasks(masks)
    }
}

impl From<Vec<(String, String)>> for StringMaskingOption {
    fn from(masks: Vec<(String, String)>) -> (r: Self) {
        StringMaskingOption::AssociatedMasks(masks)
    }
}

impl vstd::std_specs::convert::FromSpecImpl<Vec<(String, String)>> for StringMaskingOption {
    open spec fn obeys_from_spec() -> bool {
        true
    }

    open spec fn from_spec(masks: Vec<(String, String)>) -> StringMaskingOption {
        StringMaskingOption::AssociatedMasks(masks)
    }
}

impl Default for NumberMaskingOption {
    fn default() -> (r: Self)
        ensures
            r == NumberMaskingOption::DefaultMask,
    {
        NumberMaskingOption::DefaultMask
    }
}

impl From<i32> for NumberMaskingOption {
    fn from(mask: i32) -> (r: Self) {
        NumberMaskingOption::SingleMask(mask)
    }
}

impl vstd::std_specs::convert::FromSpecImpl<i32> for NumberMaskingOption {
    open spec fn obeys_from_spec() -> bool {
        true
    }

    open spec fn from_spec(mask: i32) -> NumberMaskingOption {
        NumberMaskingOption::SingleMask(mask)
    }
}

impl From<Option<i32>> for NumberMaskingOption {
    fn from(maybe_mask: Option<i32>) -> (r: Self) {
        match maybe_mask {
            Some(mask) => NumberMaskingOption::SingleMask(mask),
            None => NumberMaskingOption::DefaultMask,
        }
    }
}

impl vstd::std_specs::convert::FromSpecImpl<Option<i32>> for NumberMaskingOption {
    open spec fn obeys_from_spec() -> bool {
        true
    }

    open spec fn from_spec(maybe_mask: Option<i32>) -> NumberMaskingOption {
        match maybe_mask {
            Some(mask) => NumberMaskingOption::SingleMask(mask),
            None => NumberMaskingOption::DefaultMask,
        }
    }
}

impl From<Vec<i32>> for NumberMaskingOption {
    fn from(masks: Vec<i32>) -> (r: Self) {
        NumberMaskingOption::MultipleMasks(masks)
    }
}

impl vstd::std_specs::convert::FromSpecImpl<Vec<i32>> for NumberMaskingOption {
    open spec fn obeys_from_spec() -> bool {
        true
    }

    open spec fn from_spec(masks: Vec<i32>) -> NumberMaskingOption {
        NumberMaskingOption::MultipleMasks(masks)
    }
}

impl From<Vec<(String, i32)>> for NumberMaskingOption {
    fn from(masks: Vec<(String, i32)>) -> (r: Self) {
        NumberMaskingOption::AssociatedMasks(masks)
    }
}

impl vstd::std_specs::convert::FromSpecImpl<Vec<(String, i32)>> for NumberMaskingOption {
    open spec fn obeys_from_spec() -> bool {
        true
    }

    open spec fn from_spec(masks: Vec<(String, i32)>) -> NumberMaskingOption {
        NumberMaskingOption::AssociatedMasks(masks)
    }
}

} // verus!
