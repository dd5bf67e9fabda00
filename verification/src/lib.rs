//! A verified client library for a quiz-generator web property.
//!
//! The library covers the computational core of the client: discovering the
//! hidden anti-forgery tokens and session cookie needed for a submission,
//! turning a result page into an ordered sequence of typed content segments
//! (with two extraction strategies and a designed fallback), and building a
//! self-contained HTML snapshot of a result. Network transport is left to the
//! surrounding application, which hands response text in and takes plain
//! values back.

pub mod dom;
pub mod domain;
pub mod error;
pub mod extract;
pub mod html_template;
pub mod models;
pub mod segments;
pub mod snapshot;
pub mod text;

pub use domain::ShindanDomain;
pub use error::ShindanError;
pub use html_template::build_html;
pub use models::Segment;
pub use models::Segments;
pub use snapshot::Assets;
