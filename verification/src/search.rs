//! The decisions of a search request: which query mode it is, which image
//! weight applies, and how the query is summarised.
//!
//! Embedding the query and blending the vectors (floating point) are done by
//! the application.
use vstd::prelude::*;

use crate::text::{owned, append_str};

verus! {

/// What a search queries with.
#[derive(Debug, Clone, Copy, PartialEq, Eq, Structural)]
pub enum QueryMode {
    Text,
    Image,
    TextAndImage,
}

/// A search request that cannot run.
#[derive(Debug, Clone, Copy, PartialEq, Eq, Structural)]
pub enum SearchPlanError {
    /// Both an image path and image bytes were given.
    TwoImageSources,
    /// Neither a text query nor an image was given.
    NoQuery,
}

impl SearchPlanError {
    /// The message shown to the user.
    pub fn message(&self) -> (s: &'static str)
        ensures
            s@ == match self {
                SearchPlanError::TwoImageSources => "provide either an image path or in-memory image bytes, not both"@,
                SearchPlanError::NoQuery => "provide a text query, --image, or both"@,
            },
    {
        match self {
            SearchPlanError::TwoImageSources => "provide either an image path or in-memory image bytes, not both",
            SearchPlanError::NoQuery => "provide a text query, --image, or both",
        }
    }
}

/// The mode of a request with or without a text query, an image path and
/// image bytes.
pub open spec fn spec_plan(has_text: bool, has_path: bool, has_bytes: bool) -> Result<QueryMode, SearchPlanError> {
    if has_path && has_bytes {
        Err(SearchPlanError::TwoImageSources)
    } else if !has_text && !has_path && !has_bytes {
        Err(SearchPlanError::NoQuery)
    } else if has_text && (has_path || has_bytes) {
        Ok(QueryMode::TextAndImage)
    } else if has_text {
        Ok(QueryMode::Text)
    } else {
        Ok(QueryMode::Image)
    }
}

/// Check a search request and pick its mode.
pub fn plan_search(has_text: bool, has_path: bool, has_bytes: bool) -> (r: Result<QueryMode, SearchPlanError>)
    ensures
        r == spec_plan(has_text, has_path, has_bytes),
{
    if has_path && has_bytes {
        return Err(SearchPlanError::TwoImageSources);
    }
    let has_image = has_path || has_bytes;
    if !has_text && !has_image {
        return Err(SearchPlanError::NoQuery);
    }
    if has_text && has_image {
        Ok(QueryMode::TextAndImage)
    } else if has_text {
        Ok(QueryMode::Text)
    } else {
        Ok(QueryMode::Image)
    }
}

/// A query with text and exactly one image source (a path or bytes) is a
/// hybrid query; text alone is a text query, one image source alone an image
/// query; both image sources, or nothing, is refused. Which image source is
/// given does not matter.
pub proof fn lemma_plan_modes(has_text: bool, has_path: bool, has_bytes: bool)
    ensures
        (spec_plan(has_text, has_path, has_bytes) == Ok::<QueryMode, SearchPlanError>(QueryMode::TextAndImage))
            <==> (has_text && (has_path != has_bytes)),
        (spec_plan(has_text, has_path, has_bytes) == Ok::<QueryMode, SearchPlanError>(QueryMode::Text)) <==> (
        has_text && !has_path && !has_bytes),
        (spec_plan(has_text, has_path, has_bytes) == Ok::<QueryMode, SearchPlanError>(QueryMode::Image)) <==> (
        !has_text && (has_path != has_bytes)),
        spec_plan(has_text, has_path, has_bytes) is Err <==> ((has_path && has_bytes) || (!has_text && !has_path
            && !has_bytes)),
        spec_plan(has_text, true, false) == spec_plan(has_text, false, true),
{
}

impl QueryMode {
    /// The label shown for the mode.
    pub fn label(&self) -> (s: &'static str)
        ensures
            s@ == match self {
                QueryMode::TextAndImage => "text+image"@,
                QueryMode::Text => "text"@,
                QueryMode::Image => "image"@,
            },
    {
        match self {
            QueryMode::TextAndImage => "text+image",
            QueryMode::Text => "text",
            QueryMode::Image => "image",
        }
    }

    /// Which image weight applies: none for text alone, full for an image
    /// alone, the requested weight for both.
    pub fn image_weight_source(&self) -> (w: WeightSource)
        ensures
            w == match self {
                QueryMode::Text => WeightSource::Zero,
                QueryMode::Image => WeightSource::One,
                QueryMode::TextAndImage => WeightSource::Requested,
            },
    {
        match self {
            QueryMode::Text => WeightSource::Zero,
            QueryMode::Image => WeightSource::One,
            QueryMode::TextAndImage => WeightSource::Requested,
        }
    }
}

/// Where the image weight of a query comes from.
#[derive(Debug, Clone, Copy, PartialEq, Eq, Structural)]
pub enum WeightSource {
    /// Weight 0: text only.
    Zero,
    /// Weight 1: image only.
    One,
    /// The weight the user asked for.
    Requested,
}

/// The one-line summary of a query: the quoted text, the image (its path, or
/// `[remote image]` for bytes), or both joined by ` + `.
pub open spec fn spec_summary(text: Option<Seq<char>>, image_path: Option<Seq<char>>, has_bytes: bool) -> Seq<char> {
    let image = match image_path {
        Some(p) => Some(p),
        None => if has_bytes { Some("[remote image]"@) } else { None },
    };
    match (text, image) {
        (Some(q), Some(i)) => "\""@ + q + "\" + "@ + i,
        (Some(q), None) => "\""@ + q + "\""@,
        (None, Some(i)) => i,
        (None, None) => seq![],
    }
}

/// Summarise a query for display (`image_path` is the path as displayed).
pub fn query_summary(text: Option<&str>, image_path: Option<&str>, has_bytes: bool) -> (s: String)
    ensures
        s@ == spec_summary(
            match text { Some(t) => Some(t@), None => None },
            match image_path { Some(p) => Some(p@), None => None },
            has_bytes,
        ),
{
    let image: Option<&str> = match image_path {
        Some(p) => Some(p),
        None => if has_bytes { Some("[remote image]") } else { None },
    };
    match (text, image) {
        (Some(q), Some(i)) => {
            let mut s = owned("\"");
            append_str(&mut s, q);
            append_str(&mut s, "\" + ");
            append_str(&mut s, i);
            s
        },
        (Some(q), None) => {
            let mut s = owned("\"");
            append_str(&mut s, q);
            append_str(&mut s, "\"");
            s
        },
        (None, Some(i)) => owned(i),
        (None, None) => String::new(),
    }
}

} // verus!
