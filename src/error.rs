//! Errors of reading and writing banks.

use vstd::prelude::*;

verus! {

/// Why a bank could not be read or written.
#[derive(Clone, Debug)]
pub enum BankError {
    /// The first bytes do not identify a bank.
    NotABank,
    /// The bytes that detect a line ending conversion differ; they are given.
    UnexpectedCheckBytes(Vec<u8>),
    /// The format version differs; its bytes are given.
    UnexpectedFormatVersion(Vec<u8>),
    /// The data ends before a part that the layout requires.
    Truncated,
    /// A name starts at or past the end of the data; its offset in the name
    /// block is given.
    ZeroLengthName(u64),
    /// A name reaches past the end of the name block.
    NamePastEnd,
    /// The payloads of two files overlap; their names are given.
    Overlap(Vec<u8>, Vec<u8>),
    /// An item was added to, or a write asked of, a bank already written.
    AlreadyWritten,
    /// Metadata was asked of an item that is not the metadata file.
    NotMetadata,
    /// The metadata file does not hold a valid metadata record.
    InvalidMetadata,
    /// An offset of the bank would not fit in 64 bits.
    TooLarge,
}

} // verus!
