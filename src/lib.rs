//! Path normalization and joining that follow the Windows path rules.
//!
//! Paths are handled as their encoded bytes. The library classifies the
//! prefix of a path, rewrites alternate separators, joins fragments onto a
//! base path without touching the file system, and decides every step of
//! the buffer protocol used to expand a path to its full form.
use vstd::prelude::*;

pub mod separators;
pub mod prefix;
pub mod components;
pub mod error;
pub mod base;
pub mod join;
pub mod resolve;
pub mod laws;
mod sealed;
pub mod path_ext;

pub use base::{BasePathBuf, get_prefix, push_separator};
pub use components::{components, Component};
pub use error::{Error, ErrorKind};
pub use join::{push, to_base, normalize_verbatim};
pub use path_ext::PathExt;
pub use prefix::{is_base, parse_prefix, Prefix};
pub use resolve::{normalize, normalize_virtually, Expansion, Resolution, Step};
pub use separators::convert_separators;

verus! {

} // verus!
