//! The ways in which reading or writing an archive can fail.

use vstd::prelude::*;
use crate::content_id::ContentId;
use crate::content_id::ContentIdView;

verus! {

/// Why an operation on an archive failed.
#[derive(Debug)]
pub enum CarError {
    /// The stream ended inside a length prefix or inside a block.
    UnexpectedEof,
    /// A length prefix ran on past ten bytes.
    VarintOverflow,
    /// The header lists no roots.
    NoRoots,
    /// The header bytes do not hold a list of roots and a version.
    MalformedHeader,
    /// The row bytes do not hold a key and a payload.
    MalformedRow,
    /// A block does not start with a content identifier.
    MalformedBlock,
    /// A root of the header is not the text form of a content identifier.
    InvalidCidString,
    /// A block carries another content identifier than its root announces.
    CidMismatch { expected: ContentId, actual: ContentId },
}

/// What a `CarError` stands for: the same failures, with content identifiers
/// as what they hold.
pub enum Failure {
    /// The stream ended inside a length prefix or inside a block.
    UnexpectedEof,
    /// A length prefix ran on past ten bytes.
    VarintOverflow,
    /// The header lists no roots.
    NoRoots,
    /// The header bytes do not hold a list of roots and a version.
    MalformedHeader,
    /// The row bytes do not hold a key and a payload.
    MalformedRow,
    /// A block does not start with a content identifier.
    MalformedBlock,
    /// A root of the header is not the text form of a content identifier.
    InvalidCidString,
    /// A block carries another content identifier than its root announces.
    CidMismatch { expected: ContentIdView, actual: ContentIdView },
}

impl View for CarError {
    type V = Failure;

    open spec fn view(&self) -> Failure {
        match self {
            CarError::UnexpectedEof => Failure::UnexpectedEof,
            CarError::VarintOverflow => Failure::VarintOverflow,
            CarError::NoRoots => Failure::NoRoots,
            CarError::MalformedHeader => Failure::MalformedHeader,
            CarError::MalformedRow => Failure::MalformedRow,
            CarError::MalformedBlock => Failure::MalformedBlock,
            CarError::InvalidCidString => Failure::InvalidCidString,
            CarError::CidMismatch { expected, actual } => Failure::CidMismatch {
                expected: expected@,
                actual: actual@,
            },
        }
    }
}

} // verus!
