//! A text-shaping extension core: it takes the characters of a glyph buffer,
//! optionally rewrites them through machine translation, and re-emits a glyph
//! sequence whose cluster indices stay consistent with the original input.
//!
//! Purely numeric buffers bypass translation entirely ([`numeric`]). Other
//! buffers are split into sentence units, translated per unit through a
//! memoization cache ([`orchestrator`], [`cache`]), the translated text coming
//! from an autoregressive generation loop against an external encoder-decoder
//! model ([`engine`], behind the trusted boundary of [`model`]). The glyph
//! records and the cluster-clamping rules live in [`glyph`]; the host
//! application performs the final font lookups with their results applied
//! through [`glyph::resolved_glyph`].

pub mod cache;
pub mod engine;
pub mod glyph;
pub mod model;
pub mod numeric;
pub mod orchestrator;
