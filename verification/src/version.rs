//! The revisions of the archive layout.

use vstd::prelude::*;
use vstd::string::*;
use crate::error::variant_not_found;

verus! {

/// A revision of the archive layout. Revisions are ordered by their tag: a
/// reader understands every revision up to the one it was built for.
#[derive(Clone, Copy, Debug, PartialEq, Eq, Structural, PartialOrd, Ord, Hash)]
pub enum VersionMajor {
    /// No known revision; only ever a placeholder.
    Unknown,
    /// The first layout.
    Initial,
    /// Time stamps left the entry records.
    NoTimestamps,
    /// Entries may be compressed and encrypted.
    CompressionEncryption,
    /// The index may be encrypted.
    IndexEncryption,
    /// Offsets are counted from the entry's own record.
    RelativeChunkOffsets,
    /// Records may mark an entry as deleted.
    DeleteRecords,
    /// The archive names the key it was encrypted with.
    EncryptionKeyGuid,
    /// Codecs are named in the archive.
    FNameBasedCompression,
    /// A byte tells whether the index is frozen.
    FrozenIndex,
    /// The index is keyed by path hash.
    PathHashIndex,
    /// The path hash is computed correctly.
    Fnv64BugFix,
}

impl VersionMajor {
    /// The revision's number, as the archive stores it.
    pub open spec fn tag_spec(self) -> u8 {
        match self {
            VersionMajor::Unknown => 0,
            VersionMajor::Initial => 1,
            VersionMajor::NoTimestamps => 2,
            VersionMajor::CompressionEncryption => 3,
            VersionMajor::IndexEncryption => 4,
            VersionMajor::RelativeChunkOffsets => 5,
            VersionMajor::DeleteRecords => 6,
            VersionMajor::EncryptionKeyGuid => 7,
            VersionMajor::FNameBasedCompression => 8,
            VersionMajor::FrozenIndex => 9,
            VersionMajor::PathHashIndex => 10,
            VersionMajor::Fnv64BugFix => 11,
        }
    }

    /// The revision with the given number, if there is one.
    pub open spec fn from_tag_spec(tag: u8) -> Option<VersionMajor> {
        if tag == 0 {
            Some(VersionMajor::Unknown)
        } else if tag == 1 {
            Some(VersionMajor::Initial)
        } else if tag == 2 {
            Some(VersionMajor::NoTimestamps)
        } else if tag == 3 {
            Some(VersionMajor::CompressionEncryption)
        } else if tag == 4 {
            Some(VersionMajor::IndexEncryption)
        } else if tag == 5 {
            Some(VersionMajor::RelativeChunkOffsets)
        } else if tag == 6 {
            Some(VersionMajor::DeleteRecords)
        } else if tag == 7 {
            Some(VersionMajor::EncryptionKeyGuid)
        } else if tag == 8 {
            Some(VersionMajor::FNameBasedCompression)
        } else if tag == 9 {
            Some(VersionMajor::FrozenIndex)
        } else if tag == 10 {
            Some(VersionMajor::PathHashIndex)
        } else if tag == 11 {
            Some(VersionMajor::Fnv64BugFix)
        } else {
            None
        }
    }

    /// The revision's name, as messages show it.
    pub open spec fn name_spec(self) -> Seq<char> {
        match self {
            VersionMajor::Unknown => "Unknown"@,
            VersionMajor::Initial => "Initial"@,
            VersionMajor::NoTimestamps => "NoTimestamps"@,
            VersionMajor::CompressionEncryption => "CompressionEncryption"@,
            VersionMajor::IndexEncryption => "IndexEncryption"@,
            VersionMajor::RelativeChunkOffsets => "RelativeChunkOffsets"@,
            VersionMajor::DeleteRecords => "DeleteRecords"@,
            VersionMajor::EncryptionKeyGuid => "EncryptionKeyGuid"@,
            VersionMajor::FNameBasedCompression => "FNameBasedCompression"@,
            VersionMajor::FrozenIndex => "FrozenIndex"@,
            VersionMajor::PathHashIndex => "PathHashIndex"@,
            VersionMajor::Fnv64BugFix => "Fnv64BugFix"@,
        }
    }

    /// The revision called `name`, if there is one. Names are case sensitive.
    pub open spec fn from_name_spec(name: Seq<char>) -> Option<VersionMajor> {
        if name == "Unknown"@ {
            Some(VersionMajor::Unknown)
        } else if name == "Initial"@ {
            Some(VersionMajor::Initial)
        } else if name == "NoTimestamps"@ {
            Some(VersionMajor::NoTimestamps)
        } else if name == "CompressionEncryption"@ {
            Some(VersionMajor::CompressionEncryption)
        } else if name == "IndexEncryption"@ {
            Some(VersionMajor::IndexEncryption)
        } else if name == "RelativeChunkOffsets"@ {
            Some(VersionMajor::RelativeChunkOffsets)
        } else if name == "DeleteRecords"@ {
            Some(VersionMajor::DeleteRecords)
        } else if name == "EncryptionKeyGuid"@ {
            Some(VersionMajor::EncryptionKeyGuid)
        } else if name == "FNameBasedCompression"@ {
            Some(VersionMajor::FNameBasedCompression)
        } else if name == "FrozenIndex"@ {
            Some(VersionMajor::FrozenIndex)
        } else if name == "PathHashIndex"@ {
            Some(VersionMajor::PathHashIndex)
        } else if name == "Fnv64BugFix"@ {
            Some(VersionMajor::Fnv64BugFix)
        } else {
            None
        }
    }

    /// The revision's number.
    pub fn tag(self) -> (tag: u8)
        ensures
            tag == self.tag_spec(),
    {
        match self {
            VersionMajor::Unknown => 0,
            VersionMajor::Initial => 1,
            VersionMajor::NoTimestamps => 2,
            VersionMajor::CompressionEncryption => 3,
            VersionMajor::IndexEncryption => 4,
            VersionMajor::RelativeChunkOffsets => 5,
            VersionMajor::DeleteRecords => 6,
            VersionMajor::EncryptionKeyGuid => 7,
            VersionMajor::FNameBasedCompression => 8,
            VersionMajor::FrozenIndex => 9,
            VersionMajor::PathHashIndex => 10,
            VersionMajor::Fnv64BugFix => 11,
        }
    }

    /// The revision with the given number; a number that names none is a
    /// failed conversion.
    pub fn from_tag(tag: u8) -> (r: Result<VersionMajor, strum::ParseError>)
        ensures
            match VersionMajor::from_tag_spec(tag) {
                Some(v) => r == Ok::<VersionMajor, strum::ParseError>(v),
                None => r is Err,
            },
    {
        match tag {
            0 => Ok(VersionMajor::Unknown),
            1 => Ok(VersionMajor::Initial),
            2 => Ok(VersionMajor::NoTimestamps),
            3 => Ok(VersionMajor::CompressionEncryption),
            4 => Ok(VersionMajor::IndexEncryption),
            5 => Ok(VersionMajor::RelativeChunkOffsets),
            6 => Ok(VersionMajor::DeleteRecords),
            7 => Ok(VersionMajor::EncryptionKeyGuid),
            8 => Ok(VersionMajor::FNameBasedCompression),
            9 => Ok(VersionMajor::FrozenIndex),
            10 => Ok(VersionMajor::PathHashIndex),
            11 => Ok(VersionMajor::Fnv64BugFix),
            _ => Err(variant_not_found()),
        }
    }

    /// The revision's name.
    pub fn name(self) -> (name: &'static str)
        ensures
            name@ == self.name_spec(),
    {
        match self {
            VersionMajor::Unknown => "Unknown",
            VersionMajor::Initial => "Initial",
            VersionMajor::NoTimestamps => "NoTimestamps",
            VersionMajor::CompressionEncryption => "CompressionEncryption",
            VersionMajor::IndexEncryption => "IndexEncryption",
            VersionMajor::RelativeChunkOffsets => "RelativeChunkOffsets",
            VersionMajor::DeleteRecords => "DeleteRecords",
            VersionMajor::EncryptionKeyGuid => "EncryptionKeyGuid",
            VersionMajor::FNameBasedCompression => "FNameBasedCompression",
            VersionMajor::FrozenIndex => "FrozenIndex",
            VersionMajor::PathHashIndex => "PathHashIndex",
            VersionMajor::Fnv64BugFix => "Fnv64BugFix",
        }
    }

    /// The revision called `name`; a name of no revision is a failed
    /// conversion.
    pub fn from_name(name: &str) -> (r: Result<VersionMajor, strum::ParseError>)
        ensures
            match VersionMajor::from_name_spec(name@) {
                Some(v) => r == Ok::<VersionMajor, strum::ParseError>(v),
                None => r is Err,
            },
    {
        let all = [
            VersionMajor::Unknown,
            VersionMajor::Initial,
            VersionMajor::NoTimestamps,
            VersionMajor::CompressionEncryption,
            VersionMajor::IndexEncryption,
            VersionMajor::RelativeChunkOffsets,
            VersionMajor::DeleteRecords,
            VersionMajor::EncryptionKeyGuid,
            VersionMajor::FNameBasedCompression,
            VersionMajor::FrozenIndex,
            VersionMajor::PathHashIndex,
            VersionMajor::Fnv64BugFix,
        ];
        let wanted = String::from_str(name);
        let mut i: usize = 0;
        while i < 12
            invariant
                i <= 12,
                wanted@ == name@,
                all@.len() == 12,
                forall|k: int| 0 <= k < 12 ==> VersionMajor::from_tag_spec(k as u8) == Some(#[trigger] all@[k]),
                forall|k: int| 0 <= k < i ==> (#[trigger] all@[k]).name_spec() != name@,
            decreases 12 - i,
        {
            let candidate = all[i];
            if String::from_str(candidate.name()) == wanted {
                proof {
                    VersionMajor::lemma_names_differ();
                }
                return Ok(candidate);
            }
            i += 1;
        }
        proof {
            VersionMajor::lemma_names_differ();
        }
        Err(variant_not_found())
    }

    /// No two revisions share a name, and `from_name_spec` finds each
    /// revision by its own.
    pub proof fn lemma_names_differ()
        ensures
            forall|v: VersionMajor| VersionMajor::from_name_spec(#[trigger] v.name_spec()) == Some(v),
            forall|n: Seq<char>|
                match #[trigger] VersionMajor::from_name_spec(n) {
                    Some(v) => v.name_spec() == n,
                    None => true,
                },
    {
        reveal_strlit("Unknown");
        reveal_strlit("Initial");
        reveal_strlit("NoTimestamps");
        reveal_strlit("CompressionEncryption");
        reveal_strlit("IndexEncryption");
        reveal_strlit("RelativeChunkOffsets");
        reveal_strlit("DeleteRecords");
        reveal_strlit("EncryptionKeyGuid");
        reveal_strlit("FNameBasedCompression");
        reveal_strlit("FrozenIndex");
        reveal_strlit("PathHashIndex");
        reveal_strlit("Fnv64BugFix");
        assert("Unknown"@.len() == 7 && "Unknown"@[0] == 'U' && "Unknown"@[1] == 'n');
        assert("Initial"@.len() == 7 && "Initial"@[0] == 'I' && "Initial"@[1] == 'n');
        assert("NoTimestamps"@.len() == 12 && "NoTimestamps"@[0] == 'N' && "NoTimestamps"@[1] == 'o');
        assert("CompressionEncryption"@.len() == 21 && "CompressionEncryption"@[0] == 'C' && "CompressionEncryption"@[1] == 'o');
        assert("IndexEncryption"@.len() == 15 && "IndexEncryption"@[0] == 'I' && "IndexEncryption"@[1] == 'n');
        assert("RelativeChunkOffsets"@.len() == 20 && "RelativeChunkOffsets"@[0] == 'R' && "RelativeChunkOffsets"@[1] == 'e');
        assert("DeleteRecords"@.len() == 13 && "DeleteRecords"@[0] == 'D' && "DeleteRecords"@[1] == 'e');
        assert("EncryptionKeyGuid"@.len() == 17 && "EncryptionKeyGuid"@[0] == 'E' && "EncryptionKeyGuid"@[1] == 'n');
        assert("FNameBasedCompression"@.len() == 21 && "FNameBasedCompression"@[0] == 'F' && "FNameBasedCompression"@[1] == 'N');
        assert("FrozenIndex"@.len() == 11 && "FrozenIndex"@[0] == 'F' && "FrozenIndex"@[1] == 'r');
        assert("PathHashIndex"@.len() == 13 && "PathHashIndex"@[0] == 'P' && "PathHashIndex"@[1] == 'a');
        assert("Fnv64BugFix"@.len() == 11 && "Fnv64BugFix"@[0] == 'F' && "Fnv64BugFix"@[1] == 'n');
    }

    /// Every revision is found again by its number.
    pub proof fn lemma_tag_round_trip(v: VersionMajor)
        ensures
            VersionMajor::from_tag_spec(v.tag_spec()) == Some(v),
            v.tag_spec() <= 11,
    {
    }
}

} // verus!
