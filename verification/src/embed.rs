//! Decisions around the SigLIP embedder: which model parts to load, which
//! graph optimization levels to try, token-ID framing and output shape
//! checks.
//!
//! Running the ONNX sessions, tokenizing and the floating-point work
//! (normalization, blending) are done by the application.
use vstd::prelude::*;

use crate::error::RoobuError;
use crate::text::{trim_str, owned};

verus! {

/// Dimensionality of the SigLIP embedding vectors.
pub const EMBED_DIM: usize = 1024;

/// Token sequence length of the SigLIP text model.
pub const SIGLIP_TEXT_SEQ_LEN: usize = 64;

/// ONNX graph optimization intensity.
///
/// Higher levels may improve inference speed but can cause compatibility
/// issues with certain model exports.
#[derive(Clone, Copy, Debug, PartialEq, Eq, Structural)]
pub enum OnnxOptimizationIntensity {
    /// Minimal optimization — maximum compatibility.
    Safe,
    /// Moderate optimization — good balance of speed and compatibility.
    Balanced,
    /// Full optimization — fastest but may fail with some models.
    Aggressive,
}

/// ONNX Runtime graph optimization levels.
#[derive(Clone, Copy, Debug, PartialEq, Eq, Structural)]
pub enum GraphLevel {
    Level1,
    Level2,
    All,
}

impl OnnxOptimizationIntensity {
    /// The graph optimization level for this intensity.
    pub fn graph_level(self) -> (l: GraphLevel)
        ensures
            l == match self {
                OnnxOptimizationIntensity::Safe => GraphLevel::Level1,
                OnnxOptimizationIntensity::Balanced => GraphLevel::Level2,
                OnnxOptimizationIntensity::Aggressive => GraphLevel::All,
            },
    {
        match self {
            OnnxOptimizationIntensity::Safe => GraphLevel::Level1,
            OnnxOptimizationIntensity::Balanced => GraphLevel::Level2,
            OnnxOptimizationIntensity::Aggressive => GraphLevel::All,
        }
    }
}

/// The levels to try for the text model, in order: the requested level, then
/// each lower one.
pub fn text_fallback_levels(intensity: OnnxOptimizationIntensity) -> (r: Vec<GraphLevel>)
    ensures
        r@ == match intensity {
            OnnxOptimizationIntensity::Aggressive => seq![
                GraphLevel::All,
                GraphLevel::Level2,
                GraphLevel::Level1,
            ],
            OnnxOptimizationIntensity::Balanced => seq![GraphLevel::Level2, GraphLevel::Level1],
            OnnxOptimizationIntensity::Safe => seq![GraphLevel::Level1],
        },
{
    match intensity {
        OnnxOptimizationIntensity::Aggressive => vec![GraphLevel::All, GraphLevel::Level2, GraphLevel::Level1],
        OnnxOptimizationIntensity::Balanced => vec![GraphLevel::Level2, GraphLevel::Level1],
        OnnxOptimizationIntensity::Safe => vec![GraphLevel::Level1],
    }
}

/// Which model components to load.
#[derive(Clone, Copy, Debug, PartialEq, Eq, Structural)]
pub enum ModelLoad {
    /// Load only the text model and tokenizer (text-only search).
    TextOnly,
    /// Load only the vision model (image-only search or ingest).
    VisionOnly,
    /// Load both text and vision models (hybrid search).
    TextAndVision,
}

impl ModelLoad {
    /// Whether the vision model is loaded.
    pub fn loads_vision(self) -> (b: bool)
        ensures
            b <==> (self == ModelLoad::VisionOnly || self == ModelLoad::TextAndVision),
    {
        match self {
            ModelLoad::VisionOnly | ModelLoad::TextAndVision => true,
            ModelLoad::TextOnly => false,
        }
    }

    /// Whether the text model and tokenizer are loaded.
    pub fn loads_text(self) -> (b: bool)
        ensures
            b <==> (self == ModelLoad::TextOnly || self == ModelLoad::TextAndVision),
    {
        match self {
            ModelLoad::TextOnly | ModelLoad::TextAndVision => true,
            ModelLoad::VisionOnly => false,
        }
    }
}

/// The error `expect_shape` reports for a tensor shape, if any.
pub open spec fn shape_error(shape: Seq<i64>, rows: usize, cols: usize) -> Option<(usize, usize)> {
    if shape.len() != 2 {
        Some((2usize, shape.len() as usize))
    } else if shape[0] as usize != rows {
        Some((rows, shape[0] as usize))
    } else if shape[1] as usize != cols {
        Some((cols, shape[1] as usize))
    } else {
        None
    }
}

/// Check that a tensor has the 2-D shape `[rows, cols]`; dimensions are read
/// as `usize` the way a cast reads them.
pub fn expect_shape(shape: &[i64], rows: usize, cols: usize) -> (r: Result<(), RoobuError>)
    ensures
        r is Ok <==> shape_error(shape@, rows, cols) is None,
        r matches Err(e) ==> (e matches RoobuError::DimensionMismatch { expected, actual } && Some(
            (expected, actual),
        ) == shape_error(shape@, rows, cols)),
{
    if shape.len() != 2 {
        return Err(RoobuError::DimensionMismatch { expected: 2, actual: shape.len() });
    }
    let first = #[verifier::truncate] (shape[0] as usize);
    if first != rows {
        return Err(RoobuError::DimensionMismatch { expected: rows, actual: first });
    }
    let second = #[verifier::truncate] (shape[1] as usize);
    if second != cols {
        return Err(RoobuError::DimensionMismatch { expected: cols, actual: second });
    }
    Ok(())
}

/// The text handed to the tokenizer: `"unknown"` in place of a blank text.
pub fn tokenizer_input(text: &str) -> (r: String)
    ensures
        crate::text::trim(text@).len() == 0 ==> r@ == "unknown"@,
        crate::text::trim(text@).len() != 0 ==> r@ == text@,
{
    let trimmed = trim_str(text);
    if trimmed.as_str().is_empty() {
        owned("unknown")
    } else {
        owned(text)
    }
}

/// Frame token IDs for the text model: cut to `SIGLIP_TEXT_SEQ_LEN` and pad
/// with zeros to that length.
pub fn frame_token_ids(ids: &Vec<u32>) -> (r: Vec<i64>)
    ensures
        r@.len() == SIGLIP_TEXT_SEQ_LEN,
        forall|i: int| 0 <= i < SIGLIP_TEXT_SEQ_LEN ==> #[trigger] r@[i] == (if i < ids@.len() {
            ids@[i] as i64
        } else {
            0i64
        }),
{
    let mut out: Vec<i64> = Vec::new();
    let mut i: usize = 0;
    while i < SIGLIP_TEXT_SEQ_LEN
        invariant
            i <= SIGLIP_TEXT_SEQ_LEN,
            out@.len() == i,
            forall|j: int| 0 <= j < i ==> #[trigger] out@[j] == (if j < ids@.len() {
                ids@[j] as i64
            } else {
                0i64
            }),
        decreases SIGLIP_TEXT_SEQ_LEN - i,
    {
        if i < ids.len() {
            out.push(ids[i] as i64);
        } else {
            out.push(0);
        }
        i = i + 1;
    }
    out
}

} // verus!
