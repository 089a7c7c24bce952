//! The ways a message can be refused.

use vstd::prelude::*;

verus! {

/// Why a message (or a part of one) was refused.
#[derive(Clone, Copy, Debug, PartialEq, Eq, Structural)]
pub enum BgpError {
    HeaderTooShort,
    InvalidMarker,
    LengthBelowMinimum,
    OpenTooShort,
    InvalidAsnLength,
    WithdrawnLengthMissing,
    WithdrawnLengthExceedsBody,
    AttributesLengthMissing,
    AttributesLengthExceedsBody,
    TruncatedAttributeHeader,
    TruncatedExtendedLength,
    TruncatedLength,
    AttributeExceedsLength,
    MpReachNextHopTooLong,
    MpReachNlri,
    MpUnreachNlri,
    WithdrawnNlri,
    TrailingNlri,
}

/// The message that reports each error.
pub open spec fn error_message(e: BgpError) -> Seq<char> {
    match e {
        BgpError::HeaderTooShort => "Header too short"@,
        BgpError::InvalidMarker => "Invalid BGP marker"@,
        BgpError::LengthBelowMinimum => "BGP message length below minimum 19"@,
        BgpError::OpenTooShort => "OPEN body too short"@,
        BgpError::InvalidAsnLength => "asn_len must be 2 or 4"@,
        BgpError::WithdrawnLengthMissing => "UPDATE too short for withdrawn-routes length field"@,
        BgpError::WithdrawnLengthExceedsBody => "UPDATE withdrawn_len exceeds message body"@,
        BgpError::AttributesLengthMissing => "UPDATE too short for path-attributes length field"@,
        BgpError::AttributesLengthExceedsBody => "UPDATE attr_len exceeds message body"@,
        BgpError::TruncatedAttributeHeader => "Truncated path-attribute header"@,
        BgpError::TruncatedExtendedLength => "Truncated extended path-attribute length"@,
        BgpError::TruncatedLength => "Truncated path-attribute length"@,
        BgpError::AttributeExceedsLength => "Path attribute exceeds declared attribute length"@,
        BgpError::MpReachNextHopTooLong => "MP_REACH next-hop exceeds attribute length"@,
        BgpError::MpReachNlri => "Failed to parse MP_REACH NLRI"@,
        BgpError::MpUnreachNlri => "Failed to parse MP_UNREACH NLRI"@,
        BgpError::WithdrawnNlri => "Failed to parse withdrawn NLRI"@,
        BgpError::TrailingNlri => "Failed to parse trailing NLRI"@,
    }
}

impl BgpError {
    /// The message that reports this error.
    pub fn message(&self) -> (m: &'static str)
        ensures
            m@ == error_message(*self),
    {
        match self {
            BgpError::HeaderTooShort => "Header too short",
            BgpError::InvalidMarker => "Invalid BGP marker",
            BgpError::LengthBelowMinimum => "BGP message length below minimum 19",
            BgpError::OpenTooShort => "OPEN body too short",
            BgpError::InvalidAsnLength => "asn_len must be 2 or 4",
            BgpError::WithdrawnLengthMissing => "UPDATE too short for withdrawn-routes length field",
            BgpError::WithdrawnLengthExceedsBody => "UPDATE withdrawn_len exceeds message body",
            BgpError::AttributesLengthMissing => "UPDATE too short for path-attributes length field",
            BgpError::AttributesLengthExceedsBody => "UPDATE attr_len exceeds message body",
            BgpError::TruncatedAttributeHeader => "Truncated path-attribute header",
            BgpError::TruncatedExtendedLength => "Truncated extended path-attribute length",
            BgpError::TruncatedLength => "Truncated path-attribute length",
            BgpError::AttributeExceedsLength => "Path attribute exceeds declared attribute length",
            BgpError::MpReachNextHopTooLong => "MP_REACH next-hop exceeds attribute length",
            BgpError::MpReachNlri => "Failed to parse MP_REACH NLRI",
            BgpError::MpUnreachNlri => "Failed to parse MP_UNREACH NLRI",
            BgpError::WithdrawnNlri => "Failed to parse withdrawn NLRI",
            BgpError::TrailingNlri => "Failed to parse trailing NLRI",
        }
    }
}

} // verus!
