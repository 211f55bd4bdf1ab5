//! Reading and writing Kilohearts banks: single files that bundle presets,
//! samples, metadata and a background image under an internal directory
//! structure.

pub mod error;
pub mod kind;
pub mod layout;
pub mod merge;
pub mod metadata;
pub mod read;
pub mod round_trip;
pub mod write;

pub use error::BankError;
pub use kind::ItemKind;
pub use metadata::{JsonField, Metadata};

use vstd::prelude::*;

verus! {

/// File name of the background image without its extension.
pub const BACKGROUND_FILE_STEM: &'static str = "background";

/// Separates a directory from a file name inside a bank, whatever the
/// operating system's own separator.
pub const PATH_SEPARATOR: char = '/';

} // verus!
