//! Metadata of files and kinds of changes.

use crate::path::FilePath;
use vstd::prelude::*;

verus! {

/// The largest file that is read for inline display, in bytes.
pub const INLINE_TEXT_LIMIT: u64 = 2097152;

/// How a file differs between two trees.
#[derive(Clone, Copy, Debug, PartialEq, Eq, Structural)]
pub enum ChangeKind {
    Added,
    Modified,
    Deleted,
    Renamed,
}

/// Whether the contents of a file can be shown as text.
#[derive(Clone, Copy, Debug, PartialEq, Eq, Structural)]
pub enum TextEligibility {
    Text,
    Binary,
    Oversized,
}

impl TextEligibility {
    pub open spec fn name(self) -> Seq<char> {
        match self {
            TextEligibility::Text => "Text"@,
            TextEligibility::Binary => "Binary"@,
            TextEligibility::Oversized => "Oversized"@,
        }
    }

    /// The name of the class.
    pub fn as_str(self) -> (r: &'static str)
        ensures
            r@ == self.name(),
    {
        match self {
            TextEligibility::Text => "Text",
            TextEligibility::Binary => "Binary",
            TextEligibility::Oversized => "Oversized",
        }
    }
}

/// The class of a file by its size alone.
pub open spec fn eligibility_of_size(size: u64) -> TextEligibility {
    if size > INLINE_TEXT_LIMIT {
        TextEligibility::Oversized
    } else {
        TextEligibility::Text
    }
}

/// A file of the displayed tree.
#[derive(Debug, PartialEq, Eq)]
pub struct CurrentFile {
    pub relative: FilePath,
    pub absolute: FilePath,
    pub size: u64,
    pub modified_unix_ns: Option<u128>,
    pub text: TextEligibility,
}

#[verifier::ext_equal]
pub struct CurrentFileModel {
    pub relative: Seq<u8>,
    pub absolute: Seq<u8>,
    pub size: u64,
    pub modified_unix_ns: Option<u128>,
    pub text: TextEligibility,
}

impl DeepView for CurrentFile {
    type V = CurrentFileModel;

    open spec fn deep_view(&self) -> CurrentFileModel {
        CurrentFileModel {
            relative: self.relative@,
            absolute: self.absolute@,
            size: self.size,
            modified_unix_ns: self.modified_unix_ns,
            text: self.text,
        }
    }
}

impl Clone for CurrentFile {
    fn clone(&self) -> (r: CurrentFile)
        ensures
            r.deep_view() == self.deep_view(),
    {
        CurrentFile {
            relative: self.relative.clone(),
            absolute: self.absolute.clone(),
            size: self.size,
            modified_unix_ns: self.modified_unix_ns,
            text: self.text,
        }
    }
}

} // verus!
