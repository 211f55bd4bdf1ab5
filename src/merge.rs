//! How a new bank's metadata and background are chosen from what the caller
//! gives: the command line's fields and the files found.

use vstd::prelude::*;

use crate::kind::{background_stem, kind_has_extension, ItemKind};
use crate::metadata::{extra_keys_ok, Metadata};

verus! {

/// Metadata fields given apart from any metadata file, each one replacing the
/// file's.
pub struct MetadataOptions {
    pub author: Option<String>,
    pub name: Option<String>,
    pub description: Option<String>,
    pub id: Option<String>,
    pub version: Option<u32>,
    pub hash: Option<String>,
}

impl MetadataOptions {
    /// Whether any field is given.
    pub fn any(&self) -> (r: bool)
        ensures
            r == (self.author is Some || self.name is Some || self.description is Some
                || self.id is Some || self.version is Some || self.hash is Some),
    {
        self.author.is_some() || self.name.is_some() || self.description.is_some()
            || self.id.is_some() || self.version.is_some() || self.hash.is_some()
    }
}

/// The text of a field: the option's when given, else the file's.
pub open spec fn chosen(option: Option<String>, file: String) -> Seq<char> {
    match option {
        Some(v) => v@,
        None => file@,
    }
}

/// The option's text when given, else the file's.
fn choose_text(option: Option<String>, file: String) -> (r: String)
    ensures
        r@ == chosen(option, file),
{
    match option {
        Some(v) => v,
        None => file,
    }
}

/// The record of a metadata file with the given options laid over it: each
/// field given replaces the file's, the others and the extra fields are kept.
pub fn merge_metadata(from_file: Metadata, options: MetadataOptions) -> (r: Metadata)
    ensures
        r.author@ == chosen(options.author, from_file.author),
        r.name@ == chosen(options.name, from_file.name),
        r.description@ == chosen(options.description, from_file.description),
        r.id@ == chosen(options.id, from_file.id),
        r.version == (match options.version {
            Some(v) => Some(v),
            None => from_file.version,
        }),
        r.hash == (match options.hash {
            Some(h) => Some(h),
            None => from_file.hash,
        }),
        r.extra@ == from_file.extra@,
        extra_keys_ok(from_file.extra@) ==> extra_keys_ok(r.extra@),
{
    let version = match options.version {
        Some(v) => Some(v),
        None => from_file.version,
    };
    let hash = match options.hash {
        Some(h) => Some(h),
        None => from_file.hash,
    };
    Metadata {
        version,
        id: choose_text(options.id, from_file.id),
        name: choose_text(options.name, from_file.name),
        author: choose_text(options.author, from_file.author),
        description: choose_text(options.description, from_file.description),
        hash,
        extra: from_file.extra,
    }
}

/// What becomes of the metadata of a new bank.
#[derive(Clone, Copy, Debug, PartialEq, Eq, Structural)]
pub enum MetadataPlan {
    /// A record is made: the first metadata file's, or an empty one, with the
    /// options laid over it.
    Merge,
    /// The one metadata file is stored unchanged.
    CopyFile,
    /// No metadata is added; writing the bank adds an empty record.
    Nothing,
}

/// Chooses what becomes of the metadata from the number of metadata files
/// found and whether any option is given. With more than one file, the first
/// is merged and the others are left out.
pub fn metadata_plan(metadata_files: usize, any_option: bool) -> (r: MetadataPlan)
    ensures
        (metadata_files > 1 || any_option) <==> r == MetadataPlan::Merge,
        (metadata_files == 1 && !any_option) <==> r == MetadataPlan::CopyFile,
        (metadata_files == 0 && !any_option) <==> r == MetadataPlan::Nothing,
{
    if metadata_files > 1 || any_option {
        MetadataPlan::Merge
    } else if metadata_files == 1 {
        MetadataPlan::CopyFile
    } else {
        MetadataPlan::Nothing
    }
}

/// The name under which a background image is stored: the background stem, a
/// dot and the image's extension, or none when the extension is not one of
/// the background's.
pub fn background_file_name(ext: &[u8]) -> (r: Option<Vec<u8>>)
    ensures
        r is Some <==> kind_has_extension(ItemKind::Background, ext@),
        r matches Some(n) ==> n@ == background_stem() + seq![46u8] + ext@,
{
    if !ItemKind::Background.has_extension(ext) {
        return None;
    }
    proof {
        reveal_strlit("background");
        vstd::string::is_ascii_spec_bytes(crate::BACKGROUND_FILE_STEM);
    }
    let mut n: Vec<u8> = Vec::new();
    n.extend_from_slice(crate::BACKGROUND_FILE_STEM.as_bytes());
    n.push(46u8);
    n.extend_from_slice(ext);
    assert(n@ =~= background_stem() + seq![46u8] + ext@);
    Some(n)
}

} // verus!
