//! Error taxonomy of the library.

use vstd::prelude::*;
use crate::bech32::CodingError;
use crate::protocol::GrinboxError;

verus! {

/// The kinds of failure the library reports.
#[derive(Clone, Debug, PartialEq)]
pub enum ErrorKind {
    GenericError(String),
    SecpError,
    InvalidChainType,
    InvalidBech32Key,
    NumberParsingError,
    GrinboxAddressParsingError(String),
    Encryption,
    Decryption,
    VerifyProof,
    GrinboxWebsocketAbnormalTermination,
    GrinboxProtocolError(GrinboxError),
    Bech32Error(CodingError),
}

/// The message text of an error kind.
pub open spec fn spec_error_message(e: ErrorKind) -> Seq<char> {
    match e {
        ErrorKind::GenericError(s) => "error: "@ + s@,
        ErrorKind::SecpError => "error: secp error"@,
        ErrorKind::InvalidChainType => "error: invalid chain type!"@,
        ErrorKind::InvalidBech32Key => "error: invalid key!"@,
        ErrorKind::NumberParsingError => "error: could not parse number from string!"@,
        ErrorKind::GrinboxAddressParsingError(s) => "error: could not parse `"@ + s@
            + "` to a grinrelay address!"@,
        ErrorKind::Encryption => "error: unable to encrypt message"@,
        ErrorKind::Decryption => "error: unable to decrypt message"@,
        ErrorKind::VerifyProof => "error: unable to verify proof"@,
        ErrorKind::GrinboxWebsocketAbnormalTermination => "error: grinrelay websocket terminated unexpectedly!"@,
        ErrorKind::GrinboxProtocolError(_) => "error: grinrelay protocol error"@,
        ErrorKind::Bech32Error(_) => "error: bech32 coding error"@,
    }
}

impl ErrorKind {
    /// The message text for logs and for clients.
    pub fn message(&self) -> (r: String)
        ensures
            r@ == spec_error_message(*self),
    {
        match self {
            ErrorKind::GenericError(s) => {
                let mut m = "error: ".to_owned();
                m.append(s.as_str());
                m
            },
            ErrorKind::SecpError => "error: secp error".to_owned(),
            ErrorKind::InvalidChainType => "error: invalid chain type!".to_owned(),
            ErrorKind::InvalidBech32Key => "error: invalid key!".to_owned(),
            ErrorKind::NumberParsingError => "error: could not parse number from string!".to_owned(),
            ErrorKind::GrinboxAddressParsingError(s) => {
                let mut m = "error: could not parse `".to_owned();
                m.append(s.as_str());
                m.append("` to a grinrelay address!");
                m
            },
            ErrorKind::Encryption => "error: unable to encrypt message".to_owned(),
            ErrorKind::Decryption => "error: unable to decrypt message".to_owned(),
            ErrorKind::VerifyProof => "error: unable to verify proof".to_owned(),
            ErrorKind::GrinboxWebsocketAbnormalTermination => {
                "error: grinrelay websocket terminated unexpectedly!".to_owned()
            },
            ErrorKind::GrinboxProtocolError(_) => "error: grinrelay protocol error".to_owned(),
            ErrorKind::Bech32Error(_) => "error: bech32 coding error".to_owned(),
        }
    }
}

} // verus!
