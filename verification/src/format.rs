//! Codec and compression registries: the closed sets of payload serialization
//! and byte-compression strategies, each identified by a stable one-byte tag,
//! together with the error kinds this layer reports.

use vstd::prelude::*;

verus! {

/// Errors reported by the segment-metadata layer.
///
/// Every failure of envelope framing, tag resolution, decompression or
/// decoding is one of these; nothing is silently swallowed.
#[derive(Clone, Copy, Debug, PartialEq, Eq, Structural)]
pub enum SegmentError {
    /// An encoding tag outside the registered set was encountered.
    UnsupportedEncoding(u8),
    /// A compression tag outside the registered set was encountered.
    UnsupportedCompression(u8),
    /// Fewer bytes were available than a declared length requires.
    TruncatedInput,
    /// Decompression or decoding failed, or a payload length disagrees with
    /// what its contents declare.
    CorruptPayload,
    /// The current-version reader was invoked on a buffer tagged with a
    /// different format version: a dispatch bug upstream, not a data error.
    VersionMismatch,
}

/// A payload serialization strategy, identified by a stable one-byte tag.
///
/// The set is closed and append-only: a tag once assigned to a released
/// strategy is never reassigned. Exactly one variant is the current default
/// that new writes must use.
#[derive(Clone, Copy, Debug, PartialEq, Eq, Structural)]
pub enum Encoding {
    /// Fixed-width little-endian binary layout.
    Binary,
}

/// A byte-sequence compression strategy, identified by a stable one-byte tag,
/// independent of the payload encoding. Closed and append-only like
/// [`Encoding`]; exactly one variant is the current default.
#[derive(Clone, Copy, Debug, PartialEq, Eq, Structural)]
pub enum Compression {
    /// Bytes are stored as they are.
    Uncompressed,
}

impl Encoding {
    /// The wire tag of this strategy.
    pub open spec fn spec_tag(self) -> u8 {
        match self {
            Encoding::Binary => 1,
        }
    }

    /// The strategy registered under a wire tag, if any.
    pub open spec fn spec_from_tag(tag: u8) -> Option<Encoding> {
        if tag == 1 {
            Some(Encoding::Binary)
        } else {
            None
        }
    }

    pub fn tag(self) -> (t: u8)
        ensures
            t == self.spec_tag(),
    {
        match self {
            Encoding::Binary => 1,
        }
    }

    /// Resolves a wire tag to its registered strategy; a tag outside the
    /// registered set fails with `UnsupportedEncoding`.
    pub fn from_tag(tag: u8) -> (r: Result<Encoding, SegmentError>)
        ensures
            match r {
                Ok(e) => Encoding::spec_from_tag(tag) == Some(e),
                Err(err) => Encoding::spec_from_tag(tag) is None && err
                    == SegmentError::UnsupportedEncoding(tag),
            },
    {
        if tag == 1 {
            Ok(Encoding::Binary)
        } else {
            Err(SegmentError::UnsupportedEncoding(tag))
        }
    }
}

impl Default for Encoding {
    /// The single strategy new writes must use.
    fn default() -> (r: Self)
        ensures
            r == Encoding::Binary,
    {
        Encoding::Binary
    }
}

impl Compression {
    /// The wire tag of this strategy.
    pub open spec fn spec_tag(self) -> u8 {
        match self {
            Compression::Uncompressed => 0,
        }
    }

    /// The strategy registered under a wire tag, if any.
    pub open spec fn spec_from_tag(tag: u8) -> Option<Compression> {
        if tag == 0 {
            Some(Compression::Uncompressed)
        } else {
            None
        }
    }

    pub fn tag(self) -> (t: u8)
        ensures
            t == self.spec_tag(),
    {
        match self {
            Compression::Uncompressed => 0,
        }
    }

    /// Resolves a wire tag to its registered strategy; a tag outside the
    /// registered set fails with `UnsupportedCompression`.
    pub fn from_tag(tag: u8) -> (r: Result<Compression, SegmentError>)
        ensures
            match r {
                Ok(c) => Compression::spec_from_tag(tag) == Some(c),
                Err(err) => Compression::spec_from_tag(tag) is None && err
                    == SegmentError::UnsupportedCompression(tag),
            },
    {
        if tag == 0 {
            Ok(Compression::Uncompressed)
        } else {
            Err(SegmentError::UnsupportedCompression(tag))
        }
    }
}

impl Default for Compression {
    /// The single strategy new writes must use.
    fn default() -> (r: Self)
        ensures
            r == Compression::Uncompressed,
    {
        Compression::Uncompressed
    }
}

/// What compressing a byte sequence under a strategy yields.
pub open spec fn spec_compress(c: Compression, data: Seq<u8>) -> Seq<u8> {
    match c {
        Compression::Uncompressed => data,
    }
}

/// What decompressing a byte sequence under a strategy yields: the inverse of
/// [`spec_compress`] on well-formed payloads.
pub open spec fn spec_decompress(c: Compression, data: Seq<u8>) -> Seq<u8> {
    match c {
        Compression::Uncompressed => data,
    }
}

/// Compresses an encoded payload under the given strategy.
pub fn compress(c: Compression, data: Vec<u8>) -> (r: Result<Vec<u8>, SegmentError>)
    ensures
        r matches Ok(out) && out@ == spec_compress(c, data@),
{
    match c {
        Compression::Uncompressed => Ok(data),
    }
}

/// Decompresses a payload under the given strategy. `plain_len` is the plain
/// (uncompressed) length the envelope declares for the payload; decompression
/// fails with `CorruptPayload` when the decompressed length disagrees with it,
/// rather than silently truncating or padding. For the uncompressed strategy
/// the stored and plain lengths coincide.
pub fn decompress(c: Compression, data: Vec<u8>, plain_len: u64) -> (r: Result<
    Vec<u8>,
    SegmentError,
>)
    ensures
        match r {
            Ok(out) => data@.len() == plain_len && out@ == spec_decompress(c, data@),
            Err(err) => data@.len() != plain_len && err == SegmentError::CorruptPayload,
        },
{
    match c {
        Compression::Uncompressed => {
            if data.len() as u64 == plain_len {
                Ok(data)
            } else {
                Err(SegmentError::CorruptPayload)
            }
        },
    }
}

} // verus!
