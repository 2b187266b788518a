//! The codecs an entry can be stored with, and which of them this build
//! can run.

use vstd::prelude::*;
use vstd::string::*;
use vstd::slice::slice_to_vec;
use crate::error::{outcome, variant_not_found, Error, Failure};
use crate::rle;

verus! {

/// How an entry's bytes are stored. Every entry carries exactly one of these.
#[derive(Clone, Copy, Debug, PartialEq, Eq, Structural, Hash)]
pub enum Compression {
    /// The bytes as they are.
    Stored,
    /// Run-length coding: the general-purpose codec of this library.
    Rle,
    /// The proprietary high-ratio codec, run by a native routine that the
    /// caller loads.
    Oodle,
}

/// What is known of the native Oodle routine.
#[derive(Clone, Copy, Debug, PartialEq, Eq, Structural)]
pub enum OodleSupport {
    /// The platform cannot run it.
    Unsupported,
    /// The platform could run it, but it could not be loaded.
    Unavailable,
    /// The caller holds the loaded routine.
    Loaded,
}

/// The capabilities an archive handle may use.
#[derive(Clone, Copy, Debug, PartialEq, Eq, Structural)]
pub struct Support {
    /// Whether the general-purpose codecs may be used.
    pub compression: bool,
    /// Whether the cipher may be used.
    pub encryption: bool,
    /// The state of the native Oodle routine.
    pub oodle: OodleSupport,
}

/// What decompression gives: the entry's bytes, or the request to run the
/// native Oodle routine.
#[derive(Debug)]
pub enum Unpacked {
    /// The entry's bytes.
    Bytes(Vec<u8>),
    /// The stored bytes are Oodle data. The caller runs the loaded routine on
    /// them and hands what it produced to [`accept`].
    Oodle,
}

impl View for Unpacked {
    type V = Option<Seq<u8>>;

    open spec fn view(&self) -> Option<Seq<u8>> {
        match *self {
            Unpacked::Bytes(bytes) => Some(bytes@),
            Unpacked::Oodle => None,
        }
    }
}

impl Support {
    /// Everything this library runs itself, on a platform without Oodle.
    pub fn full() -> (s: Support)
        ensures
            s == (Support { compression: true, encryption: true, oodle: OodleSupport::Unsupported }),
    {
        Support { compression: true, encryption: true, oodle: OodleSupport::Unsupported }
    }
}

impl Compression {
    /// The codec's number, as an entry record stores it.
    pub open spec fn tag_spec(self) -> u8 {
        match self {
            Compression::Stored => 0,
            Compression::Rle => 1,
            Compression::Oodle => 2,
        }
    }

    /// The codec with the given number, if there is one.
    pub open spec fn from_tag_spec(tag: u8) -> Option<Compression> {
        if tag == 0 {
            Some(Compression::Stored)
        } else if tag == 1 {
            Some(Compression::Rle)
        } else if tag == 2 {
            Some(Compression::Oodle)
        } else {
            None
        }
    }

    /// The codec's name, as messages show it.
    pub open spec fn name_spec(self) -> Seq<char> {
        match self {
            Compression::Stored => "Stored"@,
            Compression::Rle => "Rle"@,
            Compression::Oodle => "Oodle"@,
        }
    }

    /// The codec called `name`, if there is one. Names are case sensitive.
    pub open spec fn from_name_spec(name: Seq<char>) -> Option<Compression> {
        if name == "Stored"@ {
            Some(Compression::Stored)
        } else if name == "Rle"@ {
            Some(Compression::Rle)
        } else if name == "Oodle"@ {
            Some(Compression::Oodle)
        } else {
            None
        }
    }

    /// The codec's number.
    pub fn tag(self) -> (tag: u8)
        ensures
            tag == self.tag_spec(),
    {
        match self {
            Compression::Stored => 0,
            Compression::Rle => 1,
            Compression::Oodle => 2,
        }
    }

    /// The codec with the given number; a number that names none is a failed
    /// conversion.
    pub fn from_tag(tag: u8) -> (r: Result<Compression, strum::ParseError>)
        ensures
            match Compression::from_tag_spec(tag) {
                Some(c) => r == Ok::<Compression, strum::ParseError>(c),
                None => r is Err,
            },
    {
        match tag {
            0 => Ok(Compression::Stored),
            1 => Ok(Compression::Rle),
            2 => Ok(Compression::Oodle),
            _ => Err(variant_not_found()),
        }
    }

    /// The codec's name.
    pub fn name(self) -> (name: &'static str)
        ensures
            name@ == self.name_spec(),
    {
        match self {
            Compression::Stored => "Stored",
            Compression::Rle => "Rle",
            Compression::Oodle => "Oodle",
        }
    }

    /// The codec called `name`; a name of no codec is a failed conversion.
    pub fn from_name(name: &str) -> (r: Result<Compression, strum::ParseError>)
        ensures
            match Compression::from_name_spec(name@) {
                Some(c) => r == Ok::<Compression, strum::ParseError>(c),
                None => r is Err,
            },
    {
        let wanted = String::from_str(name);
        if String::from_str("Stored") == wanted {
            Ok(Compression::Stored)
        } else if String::from_str("Rle") == wanted {
            Ok(Compression::Rle)
        } else if String::from_str("Oodle") == wanted {
            Ok(Compression::Oodle)
        } else {
            Err(variant_not_found())
        }
    }

    /// Every codec is found again by its number and by its name.
    pub proof fn lemma_round_trip(c: Compression)
        ensures
            Compression::from_tag_spec(c.tag_spec()) == Some(c),
            Compression::from_name_spec(c.name_spec()) == Some(c),
    {
        reveal_strlit("Stored");
        reveal_strlit("Rle");
        reveal_strlit("Oodle");
        assert("Stored"@.len() == 6 && "Rle"@.len() == 3 && "Oodle"@.len() == 5);
    }
}

/// The text of the error for an attempt to write Oodle data.
pub open spec fn oodle_write_text() -> Seq<char> {
    "writing Oodle compression is not supported"@
}

/// What `compress` returns: the stored form of `raw` under `codec`, or why
/// there is none.
pub open spec fn compress_spec(codec: Compression, raw: Seq<u8>, support: Support) -> Result<
    Seq<u8>,
    Failure,
> {
    match codec {
        Compression::Stored => Ok(raw),
        Compression::Rle => if support.compression {
            Ok(rle::encode(raw))
        } else {
            Err(Failure::Compression)
        },
        Compression::Oodle => match support.oodle {
            OodleSupport::Unsupported => Err(Failure::Oodle),
            OodleSupport::Unavailable => Err(Failure::OodleFailed),
            OodleSupport::Loaded => Err(Failure::Other(oodle_write_text())),
        },
    }
}

/// The rule that every codec's output is held to: it is taken where the
/// codec produced something of exactly the expected length, and is a failed
/// decompression otherwise.
pub open spec fn accept_spec(
    codec: Compression,
    produced: Option<Seq<u8>>,
    expected_len: nat,
) -> Result<Seq<u8>, Failure> {
    match produced {
        Some(raw) => if raw.len() == expected_len {
            Ok(raw)
        } else {
            Err(Failure::DecompressionFailed(codec))
        },
        None => Err(Failure::DecompressionFailed(codec)),
    }
}

/// What the codec makes of `stored`, before its output is held to the rule.
/// Only the codecs that this library runs have an answer here.
pub open spec fn unpack(codec: Compression, stored: Seq<u8>) -> Option<Seq<u8>> {
    match codec {
        Compression::Stored => Some(stored),
        Compression::Rle => rle::decode(stored),
        Compression::Oodle => None,
    }
}

/// What `decompress` returns: `Ok(Some(raw))` for the entry's bytes,
/// `Ok(None)` where the caller has to run Oodle, or the error.
pub open spec fn decompress_spec(
    codec: Compression,
    stored: Seq<u8>,
    expected_len: nat,
    support: Support,
) -> Result<Option<Seq<u8>>, Failure> {
    match codec {
        Compression::Oodle => match support.oodle {
            OodleSupport::Unsupported => Err(Failure::Oodle),
            OodleSupport::Unavailable => Err(Failure::OodleFailed),
            OodleSupport::Loaded => Ok(None),
        },
        _ => if codec == Compression::Rle && !support.compression {
            Err(Failure::Compression)
        } else {
            match accept_spec(codec, unpack(codec, stored), expected_len) {
                Ok(raw) => Ok(Some(raw)),
                Err(f) => Err(f),
            }
        },
    }
}

/// The stored form of `raw` under `codec`.
///
/// Fails where the codec may not be used: `Compression` for run-length coding
/// with the general-purpose codecs switched off; for Oodle, `Oodle` or
/// `OodleFailed` as the platform or the loading is at fault, and `Other`
/// where the routine is loaded, since it only ever decompresses.
pub fn compress(codec: Compression, raw: &[u8], support: &Support) -> (r: Result<Vec<u8>, Error>)
    ensures
        outcome(r) == compress_spec(codec, raw@, *support),
{
    match codec {
        Compression::Stored => Ok(slice_to_vec(raw)),
        Compression::Rle => {
            if support.compression {
                Ok(rle::rle_encode(raw))
            } else {
                Err(Error::Compression)
            }
        },
        Compression::Oodle => match support.oodle {
            OodleSupport::Unsupported => Err(Error::Oodle),
            OodleSupport::Unavailable => Err(Error::OodleFailed),
            OodleSupport::Loaded => Err(
                Error::Other(String::from_str("writing Oodle compression is not supported")),
            ),
        },
    }
}

/// Holds what a codec produced to the rule of [`accept_spec`]. This is also
/// where the output of the native Oodle routine comes back in: `None` where
/// the routine reported an error.
pub fn accept(codec: Compression, produced: Option<Vec<u8>>, expected_len: usize) -> (r: Result<
    Vec<u8>,
    Error,
>)
    ensures
        outcome(r) == accept_spec(
            codec,
            match produced {
                Some(v) => Some(v@),
                None => None,
            },
            expected_len as nat,
        ),
{
    match produced {
        Some(raw) => {
            if raw.len() == expected_len {
                Ok(raw)
            } else {
                Err(Error::DecompressionFailed(codec))
            }
        },
        None => Err(Error::DecompressionFailed(codec)),
    }
}

/// The entry's bytes from their stored form, which must come to exactly
/// `expected_len` bytes; for Oodle data with the routine loaded, the request
/// to run it. Never builds more than `expected_len` bytes.
pub fn decompress(codec: Compression, stored: &[u8], expected_len: usize, support: &Support) -> (r:
    Result<Unpacked, Error>)
    ensures
        outcome(r) == decompress_spec(codec, stored@, expected_len as nat, *support),
{
    match codec {
        Compression::Stored => {
            if stored.len() == expected_len {
                Ok(Unpacked::Bytes(slice_to_vec(stored)))
            } else {
                Err(Error::DecompressionFailed(codec))
            }
        },
        Compression::Rle => {
            if !support.compression {
                return Err(Error::Compression);
            }
            match accept(codec, rle::rle_decode(stored, expected_len), expected_len) {
                Ok(raw) => Ok(Unpacked::Bytes(raw)),
                Err(e) => Err(e),
            }
        },
        Compression::Oodle => match support.oodle {
            OodleSupport::Unsupported => Err(Error::Oodle),
            OodleSupport::Unavailable => Err(Error::OodleFailed),
            OodleSupport::Loaded => Ok(Unpacked::Oodle),
        },
    }
}

/// Round trip: whatever `compress` stores, `decompress` turns back into the
/// same bytes, for every codec and payload that `compress` takes.
pub proof fn lemma_decompress_compress(codec: Compression, raw: Seq<u8>, support: Support)
    requires
        compress_spec(codec, raw, support) is Ok,
    ensures
        decompress_spec(codec, compress_spec(codec, raw, support)->Ok_0, raw.len(), support) == Ok::<
            Option<Seq<u8>>,
            Failure,
        >(Some(raw)),
{
    rle::lemma_decode_encode(raw);
}

} // verus!
