//! Error kinds surfaced by the decoder.
//!
//! The format is positional: a mis-seek invalidates the remaining stream, so
//! every failure aborts the whole parse and is reported to the caller.

use vstd::prelude::*;

verus! {

/// The ways a save file can fail to decode.
///
/// `UnknownPropertyType` also covers a name or type id that lies outside the
/// name table: such an id cannot be resolved to a property type at all.
#[derive(Clone, Copy, Debug, PartialEq, Eq, Structural)]
pub enum ArkError {
    /// A read ran past the end of the buffer.
    UnexpectedEof,
    /// A length-prefixed string held bytes that are not valid UTF-8 / UTF-16,
    /// or a text payload that does not base64-decode.
    InvalidString,
    /// The header's version number lies outside the supported range.
    UnsupportedVersion,
    /// A header slot that must be zero held another value.
    HeaderCorrupt,
    /// A property record's type id matches no known property type, or a
    /// name id lies outside the name table.
    UnknownPropertyType,
    /// An object property carried a kind tag other than 0 or 1, or an
    /// unusable payload size.
    UnknownObjectPropertyKind,
    /// A cryopod's embedded byte array does not decode as a mini-save.
    MalformedCryopodBlob,
}

} // verus!
