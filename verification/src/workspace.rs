//! Which files of a workspace are listed, and how they are previewed.

use crate::lines::holds_zero;
use crate::model::{TextEligibility, INLINE_TEXT_LIMIT};
use crate::text::same_text;
use vstd::prelude::*;
use vstd::string::*;

verus! {

/// The directories that are left out: metadata of repositories, and what is generated.
pub open spec fn left_out() -> Seq<&'static str> {
    seq![".git", ".hg", ".svn", "node_modules", "target", "dist", ".next", ".cache"]
}

/// A file or directory of this name is left out.
pub open spec fn excluded(name: Seq<char>) -> bool {
    exists|i: int| 0 <= i < left_out().len() && (#[trigger] left_out()[i])@ == name
}

/// Whether a file or directory is left out by its name.
pub fn is_excluded(name: &str) -> (r: bool)
    ensures
        r == excluded(name@),
{
    let all = [".git", ".hg", ".svn", "node_modules", "target", "dist", ".next", ".cache"];
    assert(all@ =~= left_out());
    let mut i: usize = 0;
    while i < all.len()
        invariant
            i <= all@.len(),
            all@ == left_out(),
            forall|j: int| 0 <= j < i ==> (#[trigger] left_out()[j])@ != name@,
        decreases all@.len() - i,
    {
        if same_text(all[i], name) {
            assert(left_out()[i as int]@ == name@);
            return true;
        }
        i = i + 1;
    }
    false
}

/// The class of a file by its size and the bytes that it begins with; those of a file
/// that cannot be read are not there.
pub open spec fn class_of(size: u64, sample: Option<Seq<u8>>) -> TextEligibility {
    if size > INLINE_TEXT_LIMIT {
        TextEligibility::Oversized
    } else {
        match sample {
            Some(bytes) => if bytes.contains(0) {
                TextEligibility::Binary
            } else {
                TextEligibility::Text
            },
            None => TextEligibility::Binary,
        }
    }
}

/// The bytes that were read, if there are any.
pub open spec fn maybe_bytes(bytes: Option<&[u8]>) -> Option<Seq<u8>> {
    match bytes {
        Some(bytes) => Some(bytes@),
        None => None,
    }
}

/// Classifies a file.
pub fn text_eligibility(size: u64, sample: Option<&[u8]>) -> (r: TextEligibility)
    ensures
        r == class_of(size, maybe_bytes(sample)),
{
    if size > INLINE_TEXT_LIMIT {
        return TextEligibility::Oversized;
    }
    match sample {
        Some(bytes) => if holds_zero(bytes) {
            TextEligibility::Binary
        } else {
            TextEligibility::Text
        },
        None => TextEligibility::Binary,
    }
}

/// How much of a file is looked at to tell text from binary data.
pub const SAMPLE_BYTES: u64 = 8192;

/// How many files a scan lists at most.
pub const SCAN_FILE_LIMIT: usize = 200000;

/// How many bytes of files a scan looks at in all.
pub const SCAN_BYTE_LIMIT: u64 = 0x4000_0000;

/// What a scan has listed and looked at so far.
#[derive(Debug)]
pub struct ScanBudget {
    pub files: usize,
    pub bytes: u64,
}

/// The bytes that a scan looks at in a file of a size.
pub open spec fn sampled(size: u64) -> u64 {
    if size < SAMPLE_BYTES {
        size
    } else {
        SAMPLE_BYTES
    }
}

impl ScanBudget {
    /// The scan has not gone past a limit.
    pub open spec fn well_formed(self) -> bool {
        self.files <= SCAN_FILE_LIMIT && self.bytes <= SCAN_BYTE_LIMIT
    }

    /// A file of a size has room in the scan.
    pub open spec fn has_room(self, size: u64) -> bool {
        self.files < SCAN_FILE_LIMIT && self.bytes + sampled(size) <= SCAN_BYTE_LIMIT
    }

    /// A scan at its beginning.
    pub fn new() -> (r: ScanBudget)
        ensures
            r.well_formed(),
            r.files == 0,
            r.bytes == 0,
    {
        ScanBudget { files: 0, bytes: 0 }
    }

    /// Takes a file of a size into the scan, or says which limit ends the scan.
    pub fn take_in(&mut self, size: u64) -> (r: Result<(), String>)
        requires
            old(self).well_formed(),
        ensures
            final(self).well_formed(),
            match r {
                Ok(()) => old(self).has_room(size) && final(self).files == old(self).files + 1
                    && final(self).bytes == old(self).bytes + sampled(size),
                Err(error) => !old(self).has_room(size) && *final(self) == *old(self) && error@
                    == if old(self).files >= SCAN_FILE_LIMIT {
                    "workspace exceeds the file count limit"@
                } else {
                    "workspace exceeds the scan byte limit"@
                },
            },
    {
        if self.files >= SCAN_FILE_LIMIT {
            return Err("workspace exceeds the file count limit".to_owned());
        }
        let sample: u64 = if size < SAMPLE_BYTES {
            size
        } else {
            SAMPLE_BYTES
        };
        if sample > SCAN_BYTE_LIMIT - self.bytes {
            return Err("workspace exceeds the scan byte limit".to_owned());
        }
        self.files = self.files + 1;
        self.bytes = self.bytes + sample;
        Ok(())
    }
}

/// The sum of what a scan looks at in files of several sizes.
pub open spec fn sampled_in_all(sizes: Seq<u64>) -> int
    decreases sizes.len(),
{
    if sizes.len() == 0 {
        0
    } else {
        sampled_in_all(sizes.drop_last()) + sampled(sizes.last())
    }
}

/// What a scan has taken in after files of several sizes, if it took in all of them.
pub open spec fn taken_in(sizes: Seq<u64>) -> Option<ScanBudget>
    decreases sizes.len(),
{
    if sizes.len() == 0 {
        Some(ScanBudget { files: 0, bytes: 0 })
    } else {
        match taken_in(sizes.drop_last()) {
            Some(budget) => if budget.has_room(sizes.last()) {
                Some(
                    ScanBudget {
                        files: (budget.files + 1) as usize,
                        bytes: (budget.bytes + sampled(sizes.last())) as u64,
                    },
                )
            } else {
                None
            },
            None => None,
        }
    }
}

/// A scan takes files in as long as both limits are kept, and no longer.
pub proof fn scans_keep_their_limits(sizes: Seq<u64>)
    ensures
        taken_in(sizes) is Some <==> sizes.len() <= SCAN_FILE_LIMIT && sampled_in_all(sizes)
            <= SCAN_BYTE_LIMIT,
        taken_in(sizes) matches Some(budget) ==> budget.files == sizes.len() && budget.bytes
            == sampled_in_all(sizes),
        sampled_in_all(sizes) >= 0,
    decreases sizes.len(),
{
    if sizes.len() > 0 {
        scans_keep_their_limits(sizes.drop_last());
    }
}

/// Accepts the contents of a file that is not larger than what is shown inline.
pub fn limited(bytes: Vec<u8>) -> (r: Result<Vec<u8>, String>)
    ensures
        match r {
            Ok(kept) => bytes@.len() <= INLINE_TEXT_LIMIT && kept@ == bytes@,
            Err(error) => bytes@.len() > INLINE_TEXT_LIMIT && error@
                == "file exceeds the preview limit"@,
        },
{
    if bytes.len() as u64 > INLINE_TEXT_LIMIT {
        Err("file exceeds the preview limit".to_owned())
    } else {
        Ok(bytes)
    }
}

} // verus!
