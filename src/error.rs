//! Errors of the protocol, by origin, each with a reason for people to read.

use vstd::prelude::*;

verus! {

/// The text that `{:?}` writes for a string with characters `s`.
pub uninterp spec fn debug_text_of(s: Seq<char>) -> Seq<char>;

/// A character that `{:?}` writes for a string as it is: printable ASCII
/// other than the double quote and the backslash.
pub open spec fn is_plain_char(c: char) -> bool {
    ' ' <= c <= '~' && c != '"' && c != '\\'
}

/// Relies on `<str as Debug>::fmt`, through `format!("{:?}")`: the string
/// between double quotes, with quotes, backslashes and characters that are
/// not printable escaped; printable ASCII other than those stands as it is.
#[verifier::external_body]
fn debug_text(s: &str) -> (r: String)
    ensures
        r@ == debug_text_of(s@),
        (forall|i: int| 0 <= i < s@.len() ==> is_plain_char(#[trigger] s@[i])) ==> r@ == seq!['"']
            + s@ + seq!['"'],
{
    format!("{:?}", s)
}

/// An error of the library. Every variant carries a reason in words.
#[derive(Debug, Clone, PartialEq, Eq)]
pub enum MitteError {
    /// An identity could not be built or read: name too long, key unusable,
    /// frame malformed.
    DescriptionFormatError(String),
    /// An agent could not be created: key generation failed.
    AgentCreationError(String),
    /// The initiator side of a handshake failed.
    HandshakeError(String),
    /// The responder side of a handshake failed.
    ListenError(String),
    /// A message could not be sent.
    SendError(String),
    /// A message could not be received.
    ReceiveError(String),
}

impl MitteError {
    /// The reason that the error carries.
    pub open spec fn reason(self) -> Seq<char> {
        match self {
            MitteError::DescriptionFormatError(r) => r@,
            MitteError::AgentCreationError(r) => r@,
            MitteError::HandshakeError(r) => r@,
            MitteError::ListenError(r) => r@,
            MitteError::SendError(r) => r@,
            MitteError::ReceiveError(r) => r@,
        }
    }

    /// The name of the error's kind.
    pub open spec fn kind_name(self) -> Seq<char> {
        match self {
            MitteError::DescriptionFormatError(_) => "DescriptionFormatError"@,
            MitteError::AgentCreationError(_) => "AgentCreationError"@,
            MitteError::HandshakeError(_) => "HandshakeError"@,
            MitteError::ListenError(_) => "ListenError"@,
            MitteError::SendError(_) => "SendError"@,
            MitteError::ReceiveError(_) => "ReceiveError"@,
        }
    }

    /// The error in words, as `{:?}` writes it: the kind, then the reason
    /// in parentheses as `{:?}` writes a string.
    pub fn description(&self) -> (r: String)
        ensures
            r@ == self.kind_name() + "("@ + debug_text_of(self.reason()) + ")"@,
            (forall|i: int| 0 <= i < self.reason().len() ==> is_plain_char(#[trigger] self.reason()[i]))
                ==> r@ == self.kind_name() + "(\""@ + self.reason() + "\")"@,
    {
        let (kind, reason) = match self {
            MitteError::DescriptionFormatError(r) => ("DescriptionFormatError", r),
            MitteError::AgentCreationError(r) => ("AgentCreationError", r),
            MitteError::HandshakeError(r) => ("HandshakeError", r),
            MitteError::ListenError(r) => ("ListenError", r),
            MitteError::SendError(r) => ("SendError", r),
            MitteError::ReceiveError(r) => ("ReceiveError", r),
        };
        let quoted = debug_text(reason.as_str());
        let mut text = String::from_str(kind);
        text.append("(");
        text.append(quoted.as_str());
        text.append(")");
        proof {
            reveal_strlit("(");
            reveal_strlit(")");
            reveal_strlit("(\"");
            reveal_strlit("\")");
        }
        text
    }
}

} // verus!
