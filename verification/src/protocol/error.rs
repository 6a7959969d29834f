//! Errors raised while decoding the wire protocol.

use vstd::prelude::*;

use crate::protocol::word::WordType;

verus! {

/// Mathematical model of a [`ProtocolError`]: byte payloads become sequences.
pub enum ProtoErrModel {
    /// Tag digits did not parse as a `u16`; carries the digit bytes.
    InvalidTag(Seq<u8>),
    /// Tag bytes were not ASCII; carries the offending bytes.
    InvalidTagDigits(Seq<u8>),
    /// Unrecognized category name; carries the name bytes.
    InvalidCategory(Seq<u8>),
    /// The leading byte of a length prefix matches no size class.
    PrefixLength,
    /// The buffer ends before a complete sentence; not a failure, the caller
    /// must wait for more bytes.
    Incomplete,
    /// A sentence was terminated but a required word never appeared.
    IncompleteSentence(MissingWord),
    /// A word of this type is not allowed at its position in the sentence.
    WordSequence(WordType),
    /// A sentence referenced a tag with no outstanding command.
    UnknownTag(u16),
    /// A trap sentence carried an attribute it may not; carries the key.
    InvalidAttributeInTrap(Seq<u8>),
    /// A trap sentence without a `category` attribute.
    MissingCategoryInTrap,
    /// A trap sentence without a `message` attribute.
    MissingMessageInTrap,
}

/// An error that makes the byte stream's framing untrustworthy: once one is
/// raised, the whole session is torn down.
#[derive(Debug, Clone, PartialEq)]
pub enum ProtocolError {
    /// Tag digits did not parse as a `u16`.
    InvalidTag(Vec<u8>),
    /// Tag bytes were not ASCII.
    InvalidTagDigits(Vec<u8>),
    /// Unrecognized category name.
    InvalidCategory(Vec<u8>),
    /// The leading byte of a length prefix matches no size class.
    PrefixLength,
    /// The next sentence is not yet complete; wait for more bytes.
    Incomplete,
    /// The sentence is closed but a required word is missing.
    IncompleteSentence(MissingWord),
    /// A word of this type is not allowed at its position in the sentence.
    WordSequence(WordType),
    /// No outstanding command carries this tag.
    UnknownTag(u16),
    /// Unexpected attribute in a trap sentence; carries the key.
    InvalidAttributeInTrap(Vec<u8>),
    /// Missing `category` attribute in a trap sentence.
    MissingCategoryInTrap,
    /// Missing `message` attribute in a trap sentence.
    MissingMessageInTrap,
}

impl View for ProtocolError {
    type V = ProtoErrModel;

    open spec fn view(&self) -> ProtoErrModel {
        match self {
            ProtocolError::InvalidTag(b) => ProtoErrModel::InvalidTag(b@),
            ProtocolError::InvalidTagDigits(b) => ProtoErrModel::InvalidTagDigits(b@),
            ProtocolError::InvalidCategory(b) => ProtoErrModel::InvalidCategory(b@),
            ProtocolError::PrefixLength => ProtoErrModel::PrefixLength,
            ProtocolError::Incomplete => ProtoErrModel::Incomplete,
            ProtocolError::IncompleteSentence(w) => ProtoErrModel::IncompleteSentence(*w),
            ProtocolError::WordSequence(t) => ProtoErrModel::WordSequence(*t),
            ProtocolError::UnknownTag(t) => ProtoErrModel::UnknownTag(*t),
            ProtocolError::InvalidAttributeInTrap(b) => {
                ProtoErrModel::InvalidAttributeInTrap(b@)
            },
            ProtocolError::MissingCategoryInTrap => ProtoErrModel::MissingCategoryInTrap,
            ProtocolError::MissingMessageInTrap => ProtoErrModel::MissingMessageInTrap,
        }
    }
}

/// Types of words that can be missing from a terminated sentence.
#[derive(Debug, Copy, Clone, PartialEq, Eq, Structural)]
pub enum MissingWord {
    /// Missing `.tag` word: every routed response must carry a tag.
    Tag,
    /// Missing leading category word.
    Category,
    /// Missing message in a fatal sentence.
    Message,
}

} // verus!
