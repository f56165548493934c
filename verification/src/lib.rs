//! A verified engine for the IIIF Image API: the request grammar, identifier
//! decoding, request evaluation against image dimensions, the raster
//! transforms, the info.json model, and the metric registry.

pub mod text;
pub mod grammar;
pub mod spelling;
pub mod canonical;
pub mod ident;
pub mod image;
pub mod info;
pub mod eval;
pub mod v2;
pub mod codec;
pub mod encode;
pub mod pipeline;
pub mod version;
pub mod metrics;
pub mod source;
pub mod route;
pub mod health;
pub mod reply;

