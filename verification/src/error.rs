//! The ways in which encoding or decoding can fail.

use vstd::prelude::*;

verus! {

/// Why a value could not be encoded, or octets could not be decoded.
#[derive(Clone, Copy, Debug, PartialEq, Eq)]
pub enum CodecError {
    /// Fewer octets remain than the field being read needs.
    Truncated,
    /// A label of a domain name is longer than one length octet can say.
    LabelTooLong,
    /// A section holds more entries than a 16-bit count can say.
    TooManyEntries,
    /// The query/response code is neither 0 nor 1.
    UnsupportedQr,
    /// The header's operation code is not one of the known three.
    UnsupportedOpcode,
    /// The header's response code is not one of the known six.
    UnsupportedResponseCode,
    /// A question's type code is not one of the known five.
    UnsupportedQType,
    /// A question's class code is neither IN nor Any.
    UnsupportedQClass,
    /// A record's type code is not one of the known five.
    UnsupportedType,
    /// A record's class code is not IN.
    UnsupportedClass,
    /// A label of a domain name is not UTF-8, so no string can hold it.
    InvalidLabel,
}

impl CodecError {
    /// The words that say this failure to a reader.
    pub open spec fn text(self) -> Seq<char> {
        match self {
            CodecError::Truncated => "Input Ended Before The Value Did"@,
            CodecError::LabelTooLong => "Label Of A Name Too Long"@,
            CodecError::TooManyEntries => "Too Many Entries For A 16-bit Count"@,
            CodecError::UnsupportedQr => "QR Value Not Supported"@,
            CodecError::UnsupportedOpcode => "OpCode Value not supported"@,
            CodecError::UnsupportedResponseCode => "RespCode Value not supported"@,
            CodecError::UnsupportedQType => "QType Value Not Supported"@,
            CodecError::UnsupportedQClass => "QClass Value Not Supported"@,
            CodecError::UnsupportedType => "(RR)Type Value Not Supported"@,
            CodecError::UnsupportedClass => "(RR)Class Value Not Supported"@,
            CodecError::InvalidLabel => "Label Of A Name Not UTF-8"@,
        }
    }

    /// The words that say this failure to a reader.
    pub fn message(&self) -> (r: &'static str)
        ensures
            r@ == self.text(),
    {
        match self {
            CodecError::Truncated => "Input Ended Before The Value Did",
            CodecError::LabelTooLong => "Label Of A Name Too Long",
            CodecError::TooManyEntries => "Too Many Entries For A 16-bit Count",
            CodecError::UnsupportedQr => "QR Value Not Supported",
            CodecError::UnsupportedOpcode => "OpCode Value not supported",
            CodecError::UnsupportedResponseCode => "RespCode Value not supported",
            CodecError::UnsupportedQType => "QType Value Not Supported",
            CodecError::UnsupportedQClass => "QClass Value Not Supported",
            CodecError::UnsupportedType => "(RR)Type Value Not Supported",
            CodecError::UnsupportedClass => "(RR)Class Value Not Supported",
            CodecError::InvalidLabel => "Label Of A Name Not UTF-8",
        }
    }
}

} // verus!
