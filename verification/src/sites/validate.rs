//! Checks on a downloaded thumbnail before it is embedded.
use vstd::prelude::*;

verus! {

/// A decoded image of the `image` crate.
#[verifier::external_type_specification]
#[verifier::external_body]
pub struct ExDynamicImage(image::DynamicImage);

/// The (width, height) that `image::load_from_memory` decodes from `data`, or
/// `None` when it fails to decode.
pub uninterp spec fn decoded_size(data: Seq<u8>) -> Option<(u32, u32)>;

/// `image::load_from_memory`: decode an image of any supported format,
/// guessing the format from its first bytes. The contract names the result:
/// the image's size is `decoded_size` of the bytes, and it fails exactly when
/// `decoded_size` is `None`.
#[verifier::external_body]
fn decode_image(data: &[u8]) -> (r: Option<(image::DynamicImage, u32, u32)>)
    ensures
        match r {
            Some((_, w, h)) => decoded_size(data@) == Some((w, h)),
            None => decoded_size(data@) is None,
        },
{
    match image::load_from_memory(data) {
        Ok(img) => {
            let (w, h) = (img.width(), img.height());
            Some((img, w, h))
        },
        Err(_) => None,
    }
}

/// The smallest size of a downloaded image worth decoding, in bytes.
pub const MIN_DOWNLOADED_IMAGE_BYTES: usize = 500;

/// The smallest accepted edge of a decoded image, in pixels.
pub const MIN_IMAGE_EDGE_PX: u32 = 32;

/// Whether a downloaded image is kept: large enough, decodable, and with
/// both edges at least `MIN_IMAGE_EDGE_PX`.
pub open spec fn image_accepted(data: Seq<u8>) -> bool {
    &&& data.len() >= MIN_DOWNLOADED_IMAGE_BYTES
    &&& decoded_size(data) matches Some((w, h))
    &&& w >= MIN_IMAGE_EDGE_PX
    &&& h >= MIN_IMAGE_EDGE_PX
}

/// Whether a decoded image of this size is large enough: both edges at least
/// `MIN_IMAGE_EDGE_PX`.
pub fn edges_accepted(width: u32, height: u32) -> (b: bool)
    ensures
        b == (width >= MIN_IMAGE_EDGE_PX && height >= MIN_IMAGE_EDGE_PX),
{
    width >= MIN_IMAGE_EDGE_PX && height >= MIN_IMAGE_EDGE_PX
}

/// Decode a downloaded thumbnail, keeping it only when it is large enough in
/// bytes and in pixels.
pub fn validate_downloaded_image(_post_id: u64, data: &[u8]) -> (r: Option<image::DynamicImage>)
    ensures
        r is Some <==> image_accepted(data@),
{
    if data.len() < MIN_DOWNLOADED_IMAGE_BYTES {
        return None;
    }
    match decode_image(data) {
        Some((img, w, h)) => {
            if edges_accepted(w, h) {
                Some(img)
            } else {
                None
            }
        },
        None => None,
    }
}

} // verus!
