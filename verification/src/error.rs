//! The one error type of the library, and the text of each error.

use vstd::prelude::*;
use vstd::string::*;
use crate::compression::Compression;
use crate::text::{hex, decimal, starts_with, push_decimal, push_hex};
use crate::version::VersionMajor;

verus! {

/// `strum::ParseError`, carried as it is: the failure of a conversion to an
/// enumeration.
#[verifier::external_type_specification]
#[verifier::external_body]
pub struct ExParseError(strum::ParseError);

/// `std::io::Error`, carried as it is.
#[verifier::external_type_specification]
#[verifier::external_body]
pub struct ExIoError(std::io::Error);

/// `std::fmt::Error`, carried as it is.
#[verifier::external_type_specification]
#[verifier::external_body]
pub struct ExFmtError(std::fmt::Error);

/// `std::string::FromUtf8Error`, carried as it is: why bytes are no UTF-8.
#[verifier::external_type_specification]
#[verifier::external_body]
pub struct ExFromUtf8Error(std::string::FromUtf8Error);

/// `std::string::FromUtf16Error`, carried as it is.
#[verifier::external_type_specification]
#[verifier::external_body]
pub struct ExFromUtf16Error(std::string::FromUtf16Error);

/// Every way in which an operation of this library can fail.
#[derive(Debug)]
pub enum Error {
    /// A number or a name that stands for no variant of an enumeration.
    Strum(strum::ParseError),
    /// A key that is not 256 bits long.
    Aes,
    /// A compressed entry, where the general-purpose codecs are switched off.
    Compression,
    /// An encrypted archive, where the cipher is switched off.
    Encryption,
    /// An Oodle entry, on a platform that cannot run Oodle.
    Oodle,
    /// A failed read or write, or an archive that ends too early.
    Io(std::io::Error),
    /// A failed formatting.
    Fmt(std::fmt::Error),
    /// Bytes that are no UTF-8 text.
    Utf8(std::string::FromUtf8Error),
    /// Units that are no UTF-16 text.
    Utf16(std::string::FromUtf16Error),
    /// A failed download of the Oodle routine, as the text of what went wrong.
    Ureq(String),
    /// A buffered writer that could not be emptied, as the text of what went
    /// wrong.
    IntoInner(String),
    /// A byte that should be 0 or 1 and is neither.
    Bool(u8),
    /// The number found where the magic number should be.
    Magic(u32),
    /// An Oodle entry, where the routine could not be loaded.
    OodleFailed,
    /// A path that the index does not hold.
    MissingEntry(String),
    /// A stored path that does not begin with the mount point.
    PrefixMismatch { prefix: String, path: String },
    /// An entry whose destination lies outside the output directory.
    WriteOutsideOutput(String),
    /// An output directory that already holds something.
    OutputNotEmpty(String),
    /// An input that is no directory.
    InputNotADirectory(String),
    /// Bytes that the codec could not turn back into the entry.
    DecompressionFailed(Compression),
    /// An archive of a later revision than the reader was built for.
    Version { used: VersionMajor, version: VersionMajor },
    /// An encrypted archive, and no key.
    Encrypted,
    /// A path of the operating system that is no text, shown as far as it is.
    OsString(String),
    /// An encrypted index that does not read as one: the revision may be
    /// wrong, or the key.
    UnsupportedOrEncrypted(String),
    /// Anything else, in words.
    Other(String),
}

/// What an [`Error`] says, without the values of other libraries that it may
/// carry: the model that contracts speak of.
pub enum Failure {
    Strum,
    Aes,
    Compression,
    Encryption,
    Oodle,
    Io,
    Fmt,
    Utf8,
    Utf16,
    Ureq(Seq<char>),
    IntoInner(Seq<char>),
    Bool(u8),
    Magic(u32),
    OodleFailed,
    MissingEntry(Seq<char>),
    PrefixMismatch { prefix: Seq<char>, path: Seq<char> },
    WriteOutsideOutput(Seq<char>),
    OutputNotEmpty(Seq<char>),
    InputNotADirectory(Seq<char>),
    DecompressionFailed(Compression),
    Version { used: VersionMajor, version: VersionMajor },
    Encrypted,
    OsString(Seq<char>),
    UnsupportedOrEncrypted(Seq<char>),
    Other(Seq<char>),
}

impl View for Error {
    type V = Failure;

    open spec fn view(&self) -> Failure {
        match *self {
            Error::Strum(_) => Failure::Strum,
            Error::Aes => Failure::Aes,
            Error::Compression => Failure::Compression,
            Error::Encryption => Failure::Encryption,
            Error::Oodle => Failure::Oodle,
            Error::Io(_) => Failure::Io,
            Error::Fmt(_) => Failure::Fmt,
            Error::Utf8(_) => Failure::Utf8,
            Error::Utf16(_) => Failure::Utf16,
            Error::Ureq(text) => Failure::Ureq(text@),
            Error::IntoInner(text) => Failure::IntoInner(text@),
            Error::Bool(byte) => Failure::Bool(byte),
            Error::Magic(found) => Failure::Magic(found),
            Error::OodleFailed => Failure::OodleFailed,
            Error::MissingEntry(path) => Failure::MissingEntry(path@),
            Error::PrefixMismatch { prefix, path } => Failure::PrefixMismatch {
                prefix: prefix@,
                path: path@,
            },
            Error::WriteOutsideOutput(path) => Failure::WriteOutsideOutput(path@),
            Error::OutputNotEmpty(path) => Failure::OutputNotEmpty(path@),
            Error::InputNotADirectory(path) => Failure::InputNotADirectory(path@),
            Error::DecompressionFailed(codec) => Failure::DecompressionFailed(codec),
            Error::Version { used, version } => Failure::Version { used, version },
            Error::Encrypted => Failure::Encrypted,
            Error::OsString(text) => Failure::OsString(text@),
            Error::UnsupportedOrEncrypted(detail) => Failure::UnsupportedOrEncrypted(detail@),
            Error::Other(text) => Failure::Other(text@),
        }
    }
}

impl Failure {
    /// Whether the message ends with the text of a value of another library,
    /// which this library passes on and does not know.
    pub open spec fn has_foreign_text(self) -> bool {
        self is Io || self is Fmt || self is Utf8 || self is Utf16
    }

    /// The message: all of it, or what stands before the foreign text.
    pub open spec fn message(self) -> Seq<char> {
        match self {
            Failure::Strum => "enum conversion: "@ + "Matching variant not found"@,
            Failure::Aes => "expect 256 bit AES key as base64 or hex string"@,
            Failure::Compression => "enable the compression feature to read compressed paks"@,
            Failure::Encryption => "enable the encryption feature to read encrypted paks"@,
            Failure::Oodle => "Oodle compression only supported on Windows (or WINE)"@,
            Failure::Io => "io error: "@,
            Failure::Fmt => "fmt error: "@,
            Failure::Utf8 => "utf8 conversion: "@,
            Failure::Utf16 => "utf16 conversion: "@,
            Failure::Ureq(text) => "ureq error: "@ + text,
            Failure::IntoInner(text) => "bufwriter dereference: "@ + text,
            Failure::Bool(byte) => "got "@ + decimal(byte as nat) + ", which is not a boolean"@,
            Failure::Magic(found) => "found magic of "@ + hex(found as nat) + " instead of "@ + hex(
                crate::MAGIC as nat,
            ),
            Failure::OodleFailed => "Could not load oo2core_9_win64.dll"@,
            Failure::MissingEntry(path) => "No entry found at "@ + path,
            Failure::PrefixMismatch { prefix, path } => "Prefix \""@ + prefix
                + "\" does not match path \""@ + path + "\""@,
            Failure::WriteOutsideOutput(path) => "Attempted to write to \""@ + path
                + "\" which outside of output directory"@,
            Failure::OutputNotEmpty(path) => "Output directory is not empty: \""@ + path + "\""@,
            Failure::InputNotADirectory(path) => "Input is not a directory: \""@ + path + "\""@,
            Failure::DecompressionFailed(codec) => codec.name_spec() + " decompression failed"@,
            Failure::Version { used, version } => "used version "@ + used.name_spec()
                + " but pak is version "@ + version.name_spec(),
            Failure::Encrypted => "pak is encrypted but no key was provided"@,
            Failure::OsString(_) => "error with OsString"@,
            Failure::UnsupportedOrEncrypted(detail) => detail
                + "version unsupported or is encrypted (possibly missing --aes-key?)"@,
            Failure::Other(text) => text,
        }
    }
}

impl From<strum::ParseError> for Error {
    fn from(e: strum::ParseError) -> (r: Error) {
        Error::Strum(e)
    }
}

impl vstd::std_specs::convert::FromSpecImpl<strum::ParseError> for Error {
    open spec fn obeys_from_spec() -> bool {
        true
    }

    open spec fn from_spec(e: strum::ParseError) -> Error {
        Error::Strum(e)
    }
}

impl From<std::io::Error> for Error {
    fn from(e: std::io::Error) -> (r: Error) {
        Error::Io(e)
    }
}

impl vstd::std_specs::convert::FromSpecImpl<std::io::Error> for Error {
    open spec fn obeys_from_spec() -> bool {
        true
    }

    open spec fn from_spec(e: std::io::Error) -> Error {
        Error::Io(e)
    }
}

impl From<std::fmt::Error> for Error {
    fn from(e: std::fmt::Error) -> (r: Error) {
        Error::Fmt(e)
    }
}

impl vstd::std_specs::convert::FromSpecImpl<std::fmt::Error> for Error {
    open spec fn obeys_from_spec() -> bool {
        true
    }

    open spec fn from_spec(e: std::fmt::Error) -> Error {
        Error::Fmt(e)
    }
}

impl From<std::string::FromUtf8Error> for Error {
    fn from(e: std::string::FromUtf8Error) -> (r: Error) {
        Error::Utf8(e)
    }
}

impl vstd::std_specs::convert::FromSpecImpl<std::string::FromUtf8Error> for Error {
    open spec fn obeys_from_spec() -> bool {
        true
    }

    open spec fn from_spec(e: std::string::FromUtf8Error) -> Error {
        Error::Utf8(e)
    }
}

impl From<std::string::FromUtf16Error> for Error {
    fn from(e: std::string::FromUtf16Error) -> (r: Error) {
        Error::Utf16(e)
    }
}

impl vstd::std_specs::convert::FromSpecImpl<std::string::FromUtf16Error> for Error {
    open spec fn obeys_from_spec() -> bool {
        true
    }

    open spec fn from_spec(e: std::string::FromUtf16Error) -> Error {
        Error::Utf16(e)
    }
}

/// A result in the terms of contracts: the view of the value, or of the error.
pub open spec fn outcome<T: View>(r: Result<T, Error>) -> Result<T::V, Failure> {
    match r {
        Ok(value) => Ok(value@),
        Err(e) => Err(e@),
    }
}

/// `strum::ParseError::VariantNotFound`, the one value of that type: what
/// a conversion to an enumeration fails with.
#[verifier::external_body]
pub(crate) fn variant_not_found() -> (e: strum::ParseError) {
    strum::ParseError::VariantNotFound
}

/// The text that `strum::ParseError` shows through `Display`: its one variant
/// writes these words.
#[verifier::external_body]
fn parse_error_text(e: &strum::ParseError) -> (text: String)
    ensures
        text@ == "Matching variant not found"@,
{
    e.to_string()
}

/// `std::io::Error::from` of `ErrorKind::UnexpectedEof`: the error that a
/// read past the end fails with.
#[verifier::external_body]
pub(crate) fn unexpected_eof() -> (e: std::io::Error) {
    std::io::Error::from(std::io::ErrorKind::UnexpectedEof)
}

impl Error {
    /// Whether `detail` is the text that the carried value of the standard
    /// library shows of itself.
    pub open spec fn foreign_text(self, detail: String) -> bool {
        match self {
            Error::Io(e) => to_string_from_display_ensures::<std::io::Error>(&e, detail),
            Error::Fmt(e) => to_string_from_display_ensures::<std::fmt::Error>(&e, detail),
            Error::Utf8(e) => to_string_from_display_ensures::<std::string::FromUtf8Error>(
                &e,
                detail,
            ),
            Error::Utf16(e) => to_string_from_display_ensures::<std::string::FromUtf16Error>(
                &e,
                detail,
            ),
            _ => false,
        }
    }

    /// The message of this error, as shown to a user. Where the error carries
    /// a value of the standard library, the message ends with the text that
    /// this value shows of itself.
    pub fn message(&self) -> (text: String)
        ensures
            !self@.has_foreign_text() ==> text@ == self@.message(),
            self@.has_foreign_text() ==> starts_with(text@, self@.message()) && exists|
                detail: String,
            |
                self.foreign_text(detail) && text@ == self@.message() + detail@,
    {
        match self {
            Error::Strum(e) => {
                let mut s = String::from_str("enum conversion: ");
                let t = parse_error_text(e);
                s.append(t.as_str());
                s
            },
            Error::Aes => String::from_str("expect 256 bit AES key as base64 or hex string"),
            Error::Compression => String::from_str(
                "enable the compression feature to read compressed paks",
            ),
            Error::Encryption => String::from_str(
                "enable the encryption feature to read encrypted paks",
            ),
            Error::Oodle => String::from_str(
                "Oodle compression only supported on Windows (or WINE)",
            ),
            Error::Io(e) => {
                let mut s = String::from_str("io error: ");
                let t = e.to_string();
                s.append(t.as_str());
                proof {
                    assert(self.foreign_text(t) && s@ == self@.message() + t@);
                    assert(s@.subrange(0, "io error: "@.len() as int) =~= "io error: "@);
                }
                s
            },
            Error::Fmt(e) => {
                let mut s = String::from_str("fmt error: ");
                let t = e.to_string();
                s.append(t.as_str());
                proof {
                    assert(self.foreign_text(t) && s@ == self@.message() + t@);
                    assert(s@.subrange(0, "fmt error: "@.len() as int) =~= "fmt error: "@);
                }
                s
            },
            Error::Utf8(e) => {
                let mut s = String::from_str("utf8 conversion: ");
                let t = e.to_string();
                s.append(t.as_str());
                proof {
                    assert(self.foreign_text(t) && s@ == self@.message() + t@);
                    assert(s@.subrange(0, "utf8 conversion: "@.len() as int)
                        =~= "utf8 conversion: "@);
                }
                s
            },
            Error::Utf16(e) => {
                let mut s = String::from_str("utf16 conversion: ");
                let t = e.to_string();
                s.append(t.as_str());
                proof {
                    assert(self.foreign_text(t) && s@ == self@.message() + t@);
                    assert(s@.subrange(0, "utf16 conversion: "@.len() as int)
                        =~= "utf16 conversion: "@);
                }
                s
            },
            Error::Ureq(text) => {
                let mut s = String::from_str("ureq error: ");
                s.append(text.as_str());
                s
            },
            Error::IntoInner(text) => {
                let mut s = String::from_str("bufwriter dereference: ");
                s.append(text.as_str());
                s
            },
            Error::Bool(byte) => {
                let mut s = String::from_str("got ");
                push_decimal(&mut s, *byte as u64);
                s.append(", which is not a boolean");
                s
            },
            Error::Magic(found) => {
                let mut s = String::from_str("found magic of ");
                push_hex(&mut s, *found as u64);
                s.append(" instead of ");
                push_hex(&mut s, crate::MAGIC as u64);
                s
            },
            Error::OodleFailed => String::from_str("Could not load oo2core_9_win64.dll"),
            Error::MissingEntry(path) => {
                let mut s = String::from_str("No entry found at ");
                s.append(path.as_str());
                s
            },
            Error::PrefixMismatch { prefix, path } => {
                let mut s = String::from_str("Prefix \"");
                s.append(prefix.as_str());
                s.append("\" does not match path \"");
                s.append(path.as_str());
                s.append("\"");
                s
            },
            Error::WriteOutsideOutput(path) => {
                let mut s = String::from_str("Attempted to write to \"");
                s.append(path.as_str());
                s.append("\" which outside of output directory");
                s
            },
            Error::OutputNotEmpty(path) => {
                let mut s = String::from_str("Output directory is not empty: \"");
                s.append(path.as_str());
                s.append("\"");
                s
            },
            Error::InputNotADirectory(path) => {
                let mut s = String::from_str("Input is not a directory: \"");
                s.append(path.as_str());
                s.append("\"");
                s
            },
            Error::DecompressionFailed(codec) => {
                let mut s = String::from_str(codec.name());
                s.append(" decompression failed");
                s
            },
            Error::Version { used, version } => {
                let mut s = String::from_str("used version ");
                s.append(used.name());
                s.append(" but pak is version ");
                s.append(version.name());
                s
            },
            Error::Encrypted => String::from_str("pak is encrypted but no key was provided"),
            Error::OsString(_) => String::from_str("error with OsString"),
            Error::UnsupportedOrEncrypted(detail) => {
                let mut s = detail.clone();
                s.append("version unsupported or is encrypted (possibly missing --aes-key?)");
                s
            },
            Error::Other(text) => text.clone(),
        }
    }
}

} // verus!
