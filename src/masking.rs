//! Masking rules and the engines that apply them.
use vstd::prelude::*;

pub mod option;
pub mod field_scan;
pub mod fields;
pub mod body_mask;
pub mod generic_mask;
pub mod isolation;
pub mod idempotence;

use self::body_mask::{lists_body_rules, BodyMask, Error};
use self::fields::Fields;
use self::generic_mask::{
    lists_rules, GenericMask, QueryStringMask, RequestCookieMask, RequestHeaderMask, ResponseCookieMask, ResponseHeaderMask,
};
use self::option::{NumberMaskingOption, StringMaskingOption};

verus! {

/// Which field names of each category have rules, each with the replacement
/// its value gets. The masked values themselves are never part of it.
#[derive(Debug, Clone)]
pub struct MaskingMetadata {
    pub request_header_masks: Vec<(String, String)>,
    pub request_cookie_masks: Vec<(String, String)>,
    pub request_field_masks_string: Vec<(String, String)>,
    pub request_field_masks_number: Vec<(String, String)>,
    pub response_header_masks: Vec<(String, String)>,
    pub response_cookie_masks: Vec<(String, String)>,
    pub response_field_masks_string: Vec<(String, String)>,
    pub response_field_masks_number: Vec<(String, String)>,
    pub query_string_masks: Vec<(String, String)>,
}

/// The masking policy of a request/response pair: seven independent rule sets.
#[derive(Debug, Clone)]
pub struct Masking {
    query_string_mask: GenericMask<QueryStringMask>,
    request_header_mask: GenericMask<RequestHeaderMask>,
    response_header_mask: GenericMask<ResponseHeaderMask>,
    request_cookie_mask: GenericMask<RequestCookieMask>,
    response_cookie_mask: GenericMask<ResponseCookieMask>,
    request_masks: BodyMask,
    response_masks: BodyMask,
}

impl Masking {
    pub closed spec fn query_string(&self) -> GenericMask<QueryStringMask> {
        self.query_string_mask
    }

    pub closed spec fn request_header(&self) -> GenericMask<RequestHeaderMask> {
        self.request_header_mask
    }

    pub closed spec fn response_header(&self) -> GenericMask<ResponseHeaderMask> {
        self.response_header_mask
    }

    pub closed spec fn request_cookie(&self) -> GenericMask<RequestCookieMask> {
        self.request_cookie_mask
    }

    pub closed spec fn response_cookie(&self) -> GenericMask<ResponseCookieMask> {
        self.response_cookie_mask
    }

    pub closed spec fn request_body(&self) -> BodyMask {
        self.request_masks
    }

    pub closed spec fn response_body(&self) -> BodyMask {
        self.response_masks
    }

    pub open spec fn wf(&self) -> bool {
        &&& self.query_string().wf()
        &&& self.request_header().wf()
        &&& self.response_header().wf()
        &&& self.request_cookie().wf()
        &&& self.response_cookie().wf()
        &&& self.request_body().wf()
        &&& self.response_body().wf()
    }

    /// Whether no category has a rule.
    pub open spec fn spec_is_empty(&self) -> bool {
        &&& self.query_string().rules() is None
        &&& self.request_header().rules() is None
        &&& self.response_header().rules() is None
        &&& self.request_cookie().rules() is None
        &&& self.response_cookie().rules() is None
        &&& self.request_body().string_rules() is None
        &&& self.request_body().number_rules() is None
        &&& self.response_body().string_rules() is None
        &&& self.response_body().number_rules() is None
    }

    /// A policy without rules.
    pub fn new() -> (r: Masking)
        ensures
            r.wf(),
            r.spec_is_empty(),
    {
        Masking {
            query_string_mask: GenericMask::empty(),
            request_header_mask: GenericMask::empty(),
            response_header_mask: GenericMask::empty(),
            request_cookie_mask: GenericMask::empty(),
            response_cookie_mask: GenericMask::empty(),
            request_masks: BodyMask::new(),
            response_masks: BodyMask::new(),
        }
    }

    /// Masks the query string parameters named in `fields`.
    pub fn with_query_string_mask(&mut self, fields: Fields, masking_option: StringMaskingOption)
        requires
            old(self).wf(),
        ensures
            final(self).wf(),
            final(self).query_string().rules() == Some((fields.names(), masking_option)),
            final(self).request_header() == old(self).request_header(),
            final(self).response_header() == old(self).response_header(),
            final(self).request_cookie() == old(self).request_cookie(),
            final(self).response_cookie() == old(self).response_cookie(),
            final(self).request_body() == old(self).request_body(),
            final(self).response_body() == old(self).response_body(),
    {
        self.query_string_mask = GenericMask::new(fields, masking_option);
    }

    /// Masks the request headers named in `fields`.
    pub fn with_request_header_mask(&mut self, fields: Fields, masking_option: StringMaskingOption)
        requires
            old(self).wf(),
        ensures
            final(self).wf(),
            final(self).request_header().rules() == Some((fields.names(), masking_option)),
            final(self).query_string() == old(self).query_string(),
            final(self).response_header() == old(self).response_header(),
            final(self).request_cookie() == old(self).request_cookie(),
            final(self).response_cookie() == old(self).response_cookie(),
            final(self).request_body() == old(self).request_body(),
            final(self).response_body() == old(self).response_body(),
    {
        self.request_header_mask = GenericMask::new(fields, masking_option);
    }

    /// Masks the response cookies named in `fields`.
    pub fn with_response_cookie_mask(&mut self, fields: Fields, masking_option: StringMaskingOption)
        requires
            old(self).wf(),
        ensures
            final(self).wf(),
            final(self).response_cookie().rules() == Some((fields.names(), masking_option)),
            final(self).query_string() == old(self).query_string(),
            final(self).request_header() == old(self).request_header(),
            final(self).response_header() == old(self).response_header(),
            final(self).request_cookie() == old(self).request_cookie(),
            final(self).request_body() == old(self).request_body(),
            final(self).response_body() == old(self).response_body(),
    {
        self.response_cookie_mask = GenericMask::new(fields, masking_option);
    }

    /// Masks the response headers named in `fields`.
    pub fn with_response_header_mask(&mut self, fields: Fields, masking_option: StringMaskingOption)
        requires
            old(self).wf(),
        ensures
            final(self).wf(),
            final(self).response_header().rules() == Some((fields.names(), masking_option)),
            final(self).query_string() == old(self).query_string(),
            final(self).request_header() == old(self).request_header(),
            final(self).request_cookie() == old(self).request_cookie(),
            final(self).response_cookie() == old(self).response_cookie(),
            final(self).request_body() == old(self).request_body(),
            final(self).response_body() == old(self).response_body(),
    {
        self.response_header_mask = GenericMask::new(fields, masking_option);
    }

    /// Masks the request cookies named in `fields`.
    pub fn with_request_cookie_mask(&mut self, fields: Fields, masking_option: StringMaskingOption)
        requires
            old(self).wf(),
        ensures
            final(self).wf(),
            final(self).request_cookie().rules() == Some((fields.names(), masking_option)),
            final(self).query_string() == old(self).query_string(),
            final(self).request_header() == old(self).request_header(),
            final(self).response_header() == old(self).response_header(),
            final(self).response_cookie() == old(self).response_cookie(),
            final(self).request_body() == old(self).request_body(),
            final(self).response_body() == old(self).response_body(),
    {
        self.request_cookie_mask = GenericMask::new(fields, masking_option);
    }

    /// Masks the string values of the request body fields named in `fields`.
    /// An empty name is refused and the policy stays as it was.
    pub fn with_request_field_mask_string(&mut self, fields: Fields, masking_option: StringMaskingOption) -> (r: Result<(), Error>)
        requires
            old(self).wf(),
        ensures
            final(self).wf(),
            final(self).query_string() == old(self).query_string(),
            final(self).request_header() == old(self).request_header(),
            final(self).response_header() == old(self).response_header(),
            final(self).request_cookie() == old(self).request_cookie(),
            final(self).response_cookie() == old(self).response_cookie(),
            final(self).response_body() == old(self).response_body(),
            r is Err <==> body_mask::has_empty_name(fields.names()),
            r is Err ==> *final(self) == *old(self),
            r is Ok ==> final(self).request_body().number_rules() == old(self).request_body().number_rules(),
            r is Ok && fields.names().len() == 0 ==> final(self).request_body().string_rules() is None,
            r is Ok && fields.names().len() > 0 ==> final(self).request_body().string_rules() == Some(
                (fields.names(), body_mask::string_repls(masking_option, fields.names())),
            ),
    {
        self.request_masks.set_string_field_masks(fields, masking_option)
    }

    /// Masks the number values of the request body fields named in `fields`.
    /// An empty name is refused and the policy stays as it was.
    pub fn with_request_field_mask_number(&mut self, fields: Fields, masking_option: NumberMaskingOption) -> (r: Result<(), Error>)
        requires
            old(self).wf(),
        ensures
            final(self).wf(),
            final(self).query_string() == old(self).query_string(),
            final(self).request_header() == old(self).request_header(),
            final(self).response_header() == old(self).response_header(),
            final(self).request_cookie() == old(self).request_cookie(),
            final(self).response_cookie() == old(self).response_cookie(),
            final(self).response_body() == old(self).response_body(),
            r is Err <==> body_mask::has_empty_name(fields.names()),
            r is Err ==> *final(self) == *old(self),
            r is Ok ==> final(self).request_body().string_rules() == old(self).request_body().string_rules(),
            r is Ok && fields.names().len() == 0 ==> final(self).request_body().number_rules() is None,
            r is Ok && fields.names().len() > 0 ==> final(self).request_body().number_rules() == Some(
                (fields.names(), body_mask::number_repls(masking_option, fields.names())),
            ),
    {
        self.request_masks.set_number_field_masks(fields, masking_option)
    }

    /// Masks the string values of the response body fields named in `fields`.
    /// An empty name is refused and the policy stays as it was.
    pub fn with_response_field_mask_string(&mut self, fields: Fields, masking_option: StringMaskingOption) -> (r: Result<(), Error>)
        requires
            old(self).wf(),
        ensures
            final(self).wf(),
            final(self).query_string() == old(self).query_string(),
            final(self).request_header() == old(self).request_header(),
            final(self).response_header() == old(self).response_header(),
            final(self).request_cookie() == old(self).request_cookie(),
            final(self).response_cookie() == old(self).response_cookie(),
            final(self).request_body() == old(self).request_body(),
            r is Err <==> body_mask::has_empty_name(fields.names()),
            r is Err ==> *final(self) == *old(self),
            r is Ok ==> final(self).response_body().number_rules() == old(self).response_body().number_rules(),
            r is Ok && fields.names().len() == 0 ==> final(self).response_body().string_rules() is None,
            r is Ok && fields.names().len() > 0 ==> final(self).response_body().string_rules() == Some(
                (fields.names(), body_mask::string_repls(masking_option, fields.names())),
            ),
    {
        self.response_masks.set_string_field_masks(fields, masking_option)
    }

    /// Masks the number values of the response body fields named in `fields`.
    /// An empty name is refused and the policy stays as it was.
    pub fn with_response_field_mask_number(&mut self, fields: Fields, masking_option: NumberMaskingOption) -> (r: Result<(), Error>)
        requires
            old(self).wf(),
        ensures
            final(self).wf(),
            final(self).query_string() == old(self).query_string(),
            final(self).request_header() == old(self).request_header(),
            final(self).response_header() == old(self).response_header(),
            final(self).request_cookie() == old(self).request_cookie(),
            final(self).response_cookie() == old(self).response_cookie(),
            final(self).request_body() == old(self).request_body(),
            r is Err <==> body_mask::has_empty_name(fields.names()),
            r is Err ==> *final(self) == *old(self),
            r is Ok ==> final(self).response_body().string_rules() == old(self).response_body().string_rules(),
            r is Ok && fields.names().len() == 0 ==> final(self).response_body().number_rules() is None,
            r is Ok && fields.names().len() > 0 ==> final(self).response_body().number_rules() == Some(
                (fields.names(), body_mask::number_repls(masking_option, fields.names())),
            ),
    {
        self.response_masks.set_number_field_masks(fields, masking_option)
    }

    /// Whether no category has a rule.
    pub fn is_empty(&self) -> (r: bool)
        ensures
            r == self.spec_is_empty(),
    {
        self.query_string_mask.is_empty() && self.request_header_mask.is_empty()
            && self.response_header_mask.is_empty() && self.request_cookie_mask.is_empty()
            && self.response_cookie_mask.is_empty() && self.request_masks.is_empty()
            && self.response_masks.is_empty()
    }

    /// The query string rules.
    pub fn query_string_rules(&self) -> (r: &GenericMask<QueryStringMask>)
        ensures
            *r == self.query_string(),
    {
        &self.query_string_mask
    }

    /// The request header rules.
    pub fn request_header_rules(&self) -> (r: &GenericMask<RequestHeaderMask>)
        ensures
            *r == self.request_header(),
    {
        &self.request_header_mask
    }

    /// The response header rules.
    pub fn response_header_rules(&self) -> (r: &GenericMask<ResponseHeaderMask>)
        ensures
            *r == self.response_header(),
    {
        &self.response_header_mask
    }

    /// The request cookie rules.
    pub fn request_cookie_rules(&self) -> (r: &GenericMask<RequestCookieMask>)
        ensures
            *r == self.request_cookie(),
    {
        &self.request_cookie_mask
    }

    /// The response cookie rules.
    pub fn response_cookie_rules(&self) -> (r: &GenericMask<ResponseCookieMask>)
        ensures
            *r == self.response_cookie(),
    {
        &self.response_cookie_mask
    }

    /// The request body rules.
    pub fn request_body_rules(&self) -> (r: &BodyMask)
        ensures
            *r == self.request_body(),
    {
        &self.request_masks
    }

    /// The response body rules.
    pub fn response_body_rules(&self) -> (r: &BodyMask)
        ensures
            *r == self.response_body(),
    {
        &self.response_masks
    }

    /// Which names of each category have rules, with their replacements.
    pub fn metadata(&self) -> (r: MaskingMetadata)
        requires
            self.wf(),
        ensures
            lists_rules(r.query_string_masks@, self.query_string()),
            lists_rules(r.request_header_masks@, self.request_header()),
            lists_rules(r.response_header_masks@, self.response_header()),
            lists_rules(r.request_cookie_masks@, self.request_cookie()),
            lists_rules(r.response_cookie_masks@, self.response_cookie()),
            lists_body_rules(r.request_field_masks_string@, self.request_body().string_rules(), true),
            lists_body_rules(r.request_field_masks_number@, self.request_body().number_rules(), false),
            lists_body_rules(r.response_field_masks_string@, self.response_body().string_rules(), true),
            lists_body_rules(r.response_field_masks_number@, self.response_body().number_rules(), false),
    {
        let (request_field_masks_string, request_field_masks_number) = self.request_masks.metadata();
        let (response_field_masks_string, response_field_masks_number) = self.response_masks.metadata();
        MaskingMetadata {
            request_header_masks: self.request_header_mask.metadata(),
            request_cookie_masks: self.request_cookie_mask.metadata(),
            request_field_masks_string,
            request_field_masks_number,
            response_header_masks: self.response_header_mask.metadata(),
            response_cookie_masks: self.response_cookie_mask.metadata(),
            response_field_masks_string,
            response_field_masks_number,
            query_string_masks: self.query_string_mask.metadata(),
        }
    }
}

impl Default for Masking {
    fn default() -> (r: Masking)
        ensures
            r.wf(),
            r.spec_is_empty(),
    {
        Masking::new()
    }
}

} // verus!
