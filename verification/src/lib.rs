//! A reader for the ZISRAW (CZI) microscopy image container format.
//!
//! The container is a sequence of segments, each a 32-byte header (a 16-byte
//! ASCII tag and two sizes) followed by a payload. The library parses the
//! segments of a file held in memory: the file header, the sub-block
//! directory, the embedded XML metadata, named attachments and image
//! sub-blocks. Bulk payloads (pixel data, thumbnails) are returned as lazy
//! slices that record a position and a length and read nothing until asked.
//!
//! Every parsing function carries a contract that pins its result to a
//! specification function over the file's byte sequence.

#![allow(non_snake_case)]

use vstd::prelude::*;

pub mod basic;
pub mod blockbuf;
pub mod bytes;
pub mod registry;
pub mod segment;
pub mod text;
pub mod xml;
pub mod zisraw;

verus! {

/// How the error classes of the reader are told apart: short or impossible
/// reads (`Io`), malformed container structure or text (`Format`), numeric or
/// date text that does not decode (`Parse`), and a request to move a buffer
/// backwards (`BackwardsSkip`).
#[derive(Debug)]
pub enum Error {
    /// The underlying bytes end before a read is satisfied.
    Io(String),
    /// The container or its embedded text is malformed.
    Format(String),
    /// A textual value does not decode to the expected type.
    Parse(String),
    /// A buffer was asked to skip to a position it has already passed.
    BackwardsSkip,
}

impl Error {
    /// True of errors reporting a short read.
    pub open spec fn is_io(&self) -> bool {
        self matches Error::Io(_)
    }

    /// True of errors reporting a malformed container or malformed text.
    pub open spec fn is_format(&self) -> bool {
        self matches Error::Format(_)
    }

    /// True of errors reporting undecodable numeric or date text.
    pub open spec fn is_parse(&self) -> bool {
        self matches Error::Parse(_)
    }

    /// True of the error reporting a backward skip.
    pub open spec fn is_backwards_skip(&self) -> bool {
        self matches Error::BackwardsSkip
    }

    /// A short human-readable description of the error.
    pub fn message(&self) -> String {
        match self {
            Error::Io(m) => m.clone(),
            Error::Format(m) => m.clone(),
            Error::Parse(m) => m.clone(),
            Error::BackwardsSkip => "cannot skip backwards".to_owned(),
        }
    }
}

/// The two byte orders a buffer can decode scalars with. ZISRAW files are
/// always little-endian on disk.
#[derive(Clone, Copy, Debug, PartialEq, Eq, Structural)]
pub enum Endian {
    Big,
    Little,
}

} // verus!
