//! Static analysis engine for localization tooling.
//!
//! Given JavaScript/TypeScript/JSX source, the library extracts every call to
//! a translation function resolved to a fully-qualified resource key, every
//! literal user-facing text fragment that bypasses translation, and the
//! translation context that applies at a given line.  It also extracts key
//! positions from locale resource JSON, resolves extracted keys against a
//! locale index, and maintains that index.
//!
//! Parsing of source text into a syntax tree is delegated to an external
//! parser; the tree is handed over in a serialized form, decoded here, and
//! every analysis over it is verified.

pub mod ast;
pub mod consts;
pub mod decode;
pub mod hardcoded;
pub mod index;
pub mod json;
pub mod lines;
pub mod parse;
pub mod resolve;
pub mod resource_scan;
pub mod scan;
pub mod scopes;
pub mod text;
pub mod util;
