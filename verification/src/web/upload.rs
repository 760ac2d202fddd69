//! The multipart search form: what each field does to the request, and the
//! checks made once every field is read.
//!
//! The application reads the fields off the connection (and parses the
//! floating-point image weight); this module decides.
use vstd::prelude::*;

use crate::text::{owned, str_eq, trim, trim_str, parse_u64, parse_unsigned, views};
use crate::web::common::{parse_sites, spec_parse_sites};
use crate::web::params::{clamp_or, clamp_param, non_blank};

verus! {

/// The largest accepted image upload, in bytes.
pub const MAX_UPLOAD_IMAGE_BYTES: usize = 20971520;

/// How a form field is read.
#[derive(Debug, Clone, Copy, PartialEq, Eq, Structural)]
pub enum FieldKind {
    /// The text query.
    Query,
    /// A site filter value.
    Site,
    /// The result limit.
    Limit,
    /// The image weight (a number the caller parses).
    ImageWeight,
    /// The image file.
    Image,
    /// Any other field, which is ignored.
    Ignored,
}

/// The kind of a field, by its name.
pub fn field_kind(name: &str) -> (k: FieldKind)
    ensures
        k == (if name@ == "q"@ {
            FieldKind::Query
        } else if name@ == "site"@ {
            FieldKind::Site
        } else if name@ == "limit"@ {
            FieldKind::Limit
        } else if name@ == "image_weight"@ {
            FieldKind::ImageWeight
        } else if name@ == "image"@ {
            FieldKind::Image
        } else {
            FieldKind::Ignored
        }),
{
    if str_eq(name, "q") {
        FieldKind::Query
    } else if str_eq(name, "site") {
        FieldKind::Site
    } else if str_eq(name, "limit") {
        FieldKind::Limit
    } else if str_eq(name, "image_weight") {
        FieldKind::ImageWeight
    } else if str_eq(name, "image") {
        FieldKind::Image
    } else {
        FieldKind::Ignored
    }
}

/// A rejected upload form.
#[derive(Debug, Clone, Copy, PartialEq, Eq, Structural)]
pub enum UploadError {
    InvalidLimit,
    EmptyImage,
    ImageTooLarge,
    NoQuery,
}

impl UploadError {
    /// The message returned to the client.
    pub fn message(&self) -> (s: &'static str)
        ensures
            s@ == match self {
                UploadError::InvalidLimit => "limit must be a positive integer"@,
                UploadError::EmptyImage => "image upload is empty"@,
                UploadError::ImageTooLarge => "image upload exceeds 20971520 bytes"@,
                UploadError::NoQuery => "Provide at least one of: q text field or image file field"@,
            },
    {
        match self {
            UploadError::InvalidLimit => "limit must be a positive integer",
            UploadError::EmptyImage => "image upload is empty",
            UploadError::ImageTooLarge => "image upload exceeds 20971520 bytes",
            UploadError::NoQuery => "Provide at least one of: q text field or image file field",
        }
    }
}

/// The fields read so far.
pub struct UploadForm {
    pub text_query: Option<String>,
    pub image: Option<Vec<u8>>,
    pub raw_sites: Vec<String>,
    pub limit: Option<u64>,
}

/// The search request the form describes.
pub struct UploadRequest {
    pub text_query: Option<String>,
    pub image: Option<Vec<u8>>,
    pub site_filter: Vec<String>,
    pub limit: u64,
}

impl UploadForm {
    /// No field read yet.
    pub fn new() -> (f: Self)
        ensures
            f.text_query is None,
            f.image is None,
            f.raw_sites@.len() == 0,
            f.limit is None,
    {
        UploadForm { text_query: None, image: None, raw_sites: Vec::new(), limit: None }
    }

    /// A `q` field: it replaces the text query.
    pub fn set_query(&mut self, value: String)
        ensures
            final(self).text_query == Some(value),
            final(self).image == old(self).image,
            final(self).raw_sites == old(self).raw_sites,
            final(self).limit == old(self).limit,
    {
        self.text_query = Some(value);
    }

    /// A `site` field: one more raw site value.
    pub fn add_site(&mut self, value: String)
        ensures
            final(self).raw_sites@ == old(self).raw_sites@.push(value),
            final(self).text_query == old(self).text_query,
            final(self).image == old(self).image,
            final(self).limit == old(self).limit,
    {
        self.raw_sites.push(value);
    }

    /// A `limit` field: an unsigned integer after trimming.
    pub fn set_limit(&mut self, value: &str) -> (r: Result<(), UploadError>)
        ensures
            r is Ok <==> parse_unsigned(trim(value@), u64::MAX as nat) is Some,
            r is Ok ==> (final(self).limit matches Some(l) && Some(l as nat) == parse_unsigned(trim(value@), u64::MAX as nat)),
            r is Err ==> r == Err::<(), UploadError>(UploadError::InvalidLimit) && final(self).limit == old(self).limit,
            final(self).text_query == old(self).text_query,
            final(self).image == old(self).image,
            final(self).raw_sites == old(self).raw_sites,
    {
        let t = trim_str(value);
        match parse_u64(t.as_str()) {
            Some(l) => {
                self.limit = Some(l);
                Ok(())
            },
            None => Err(UploadError::InvalidLimit),
        }
    }

    /// An `image` field: a non-empty upload of at most `MAX_UPLOAD_IMAGE_BYTES`.
    pub fn set_image(&mut self, bytes: Vec<u8>) -> (r: Result<(), UploadError>)
        ensures
            bytes@.len() == 0 ==> r == Err::<(), UploadError>(UploadError::EmptyImage),
            bytes@.len() > MAX_UPLOAD_IMAGE_BYTES ==> r == Err::<(), UploadError>(UploadError::ImageTooLarge),
            0 < bytes@.len() <= MAX_UPLOAD_IMAGE_BYTES ==> r is Ok && final(self).image == Some(bytes),
            r is Err ==> final(self).image == old(self).image,
            final(self).text_query == old(self).text_query,
            final(self).raw_sites == old(self).raw_sites,
            final(self).limit == old(self).limit,
    {
        if bytes.len() == 0 {
            return Err(UploadError::EmptyImage);
        }
        if bytes.len() > MAX_UPLOAD_IMAGE_BYTES {
            return Err(UploadError::ImageTooLarge);
        }
        self.image = Some(bytes);
        Ok(())
    }

    /// The request, once every field is read: the trimmed text query (if not
    /// blank), the image, the parsed site filter and the limit (default 10,
    /// between 1 and 100). At least a text query or an image is needed.
    pub fn finish(self) -> (r: Result<UploadRequest, UploadError>)
        ensures
            ({
                let text_ok = self.text_query matches Some(q) && trim(q@).len() > 0;
                &&& (r is Err <==> (!text_ok && self.image is None))
                &&& (r is Err ==> r == Err::<UploadRequest, UploadError>(UploadError::NoQuery))
                &&& (r matches Ok(req) ==> {
                    &&& (text_ok ==> (req.text_query matches Some(t) && t@ == trim(self.text_query.unwrap()@)))
                    &&& (!text_ok ==> req.text_query is None)
                    &&& req.image == self.image
                    &&& views(req.site_filter@) == spec_parse_sites(views(self.raw_sites@))
                    &&& req.limit == clamp_or(self.limit, 10, 1, 100)
                })
            }),
    {
        let text_query = non_blank(&self.text_query);
        if text_query.is_none() && self.image.is_none() {
            return Err(UploadError::NoQuery);
        }
        let site_filter = parse_sites(&self.raw_sites);
        let limit = clamp_param(self.limit, 10, 1, 100);
        Ok(UploadRequest { text_query, image: self.image, site_filter, limit })
    }
}

/// The message of a plain search request with neither a text query nor an
/// image URL.
pub const MISSING_QUERY_MESSAGE: &'static str = "Provide at least one of: 'q' (text query) or 'image_url'";

/// Whether an optional text holds something other than whitespace.
pub fn has_content(v: &Option<String>) -> (b: bool)
    ensures
        b == (v matches Some(s) && trim(s@).len() > 0),
{
    non_blank(v).is_some()
}

} // verus!
