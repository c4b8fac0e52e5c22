//! HomeKit-style pairing: the TLV8 message format, the Pair-Setup and
//! Pair-Verify state machines, and key storage.
use vstd::prelude::*;
use crate::crypto::CryptoError;
use crate::text::{decimal, push_decimal};
use tlv::{lookup, parse_items, TlvDecoder, TlvError, TlvType};

pub mod setup;
pub mod storage;
pub mod tlv;
pub mod verify;

pub use setup::PairSetup;
pub use storage::PairingKeys;
pub use verify::PairVerify;

verus! {

/// Where a pairing exchange stands.
#[derive(Debug, Clone, Copy, PartialEq, Eq, Structural)]
pub enum PairingState {
    /// Not started
    Init,
    /// First message sent, waiting for the device
    WaitingResponse,
    /// SRP values exchanged
    SrpExchange,
    /// Keys being exchanged
    KeyExchange,
    /// Signatures being verified
    Verifying,
    /// Finished
    Complete,
    /// The device reported an error
    Failed,
}

/// The name of a state, as `{:?}` prints it.
pub open spec fn state_name(s: PairingState) -> Seq<char> {
    match s {
        PairingState::Init => "Init"@,
        PairingState::WaitingResponse => "WaitingResponse"@,
        PairingState::SrpExchange => "SrpExchange"@,
        PairingState::KeyExchange => "KeyExchange"@,
        PairingState::Verifying => "Verifying"@,
        PairingState::Complete => "Complete"@,
        PairingState::Failed => "Failed"@,
    }
}

/// The name of a state, as `{:?}` prints it.
pub fn state_text(s: PairingState) -> (r: String)
    ensures
        r@ == state_name(s),
{
    match s {
        PairingState::Init => String::from_str("Init"),
        PairingState::WaitingResponse => String::from_str("WaitingResponse"),
        PairingState::SrpExchange => String::from_str("SrpExchange"),
        PairingState::KeyExchange => String::from_str("KeyExchange"),
        PairingState::Verifying => String::from_str("Verifying"),
        PairingState::Complete => String::from_str("Complete"),
        PairingState::Failed => String::from_str("Failed"),
    }
}

/// Keys for the encrypted control channel after pairing.
#[derive(Debug, Clone, Copy)]
pub struct SessionKeys {
    /// Key for messages to the device
    pub encrypt_key: [u8; 32],
    /// Key for messages from the device
    pub decrypt_key: [u8; 32],
    /// Next nonce for messages to the device
    pub encrypt_nonce: u64,
    /// Next nonce for messages from the device
    pub decrypt_nonce: u64,
}

/// What a pairing step gives.
#[derive(Debug)]
pub enum PairingStepResult {
    /// A message to send to the device
    SendData(Vec<u8>),
    /// Pairing is complete
    Complete(SessionKeys),
}

/// Pairing errors.
#[derive(Debug, Clone)]
pub enum PairingError {
    /// A step came in the wrong state, or a message carried the wrong state.
    InvalidState {
        /// What was expected
        expected: String,
        /// What was found
        actual: String,
    },
    /// The device reported an error code.
    DeviceError {
        /// The code
        code: u8,
    },
    /// Authentication could not be attempted.
    AuthenticationFailed(String),
    /// The SRP proof did not verify.
    SrpVerificationFailed,
    /// A signature did not verify.
    SignatureVerificationFailed,
    /// A malformed TLV message.
    TlvError(TlvError),
    /// A cryptographic operation failed.
    CryptoError(CryptoError),
}

/// What a pairing error says, as the contracts see it.
pub enum PairingErrorView {
    /// A step came in the wrong state, or a message carried the wrong state.
    InvalidState { expected: Seq<char>, actual: Seq<char> },
    /// The device reported an error code.
    DeviceError { code: u8 },
    /// Authentication could not be attempted.
    AuthenticationFailed(Seq<char>),
    /// The SRP proof did not verify.
    SrpVerificationFailed,
    /// A signature did not verify.
    SignatureVerificationFailed,
    /// A malformed TLV message.
    TlvError(TlvError),
    /// A cryptographic operation failed.
    CryptoError(CryptoError),
}

impl View for PairingError {
    type V = PairingErrorView;

    open spec fn view(&self) -> PairingErrorView {
        match self {
            PairingError::InvalidState { expected, actual } => PairingErrorView::InvalidState {
                expected: expected@,
                actual: actual@,
            },
            PairingError::DeviceError { code } => PairingErrorView::DeviceError { code: *code },
            PairingError::AuthenticationFailed(m) => PairingErrorView::AuthenticationFailed(m@),
            PairingError::SrpVerificationFailed => PairingErrorView::SrpVerificationFailed,
            PairingError::SignatureVerificationFailed => PairingErrorView::SignatureVerificationFailed,
            PairingError::TlvError(e) => PairingErrorView::TlvError(*e),
            PairingError::CryptoError(e) => PairingErrorView::CryptoError(*e),
        }
    }
}

/// The value of item `t` of a TLV message, or `None` when the message does
/// not parse or has no such item.
pub open spec fn tlv_field(data: Seq<u8>, t: TlvType) -> Option<Seq<u8>> {
    match parse_items(data) {
        Some(items) => lookup(items, t.spec_byte()),
        None => None,
    }
}

/// The code of the single-byte Error item of a message, if it has one.
pub open spec fn device_error_code(data: Seq<u8>) -> Option<u8> {
    match tlv_field(data, TlvType::Error) {
        Some(v) => if v.len() == 1 {
            Some(v[0])
        } else {
            None
        },
        None => None,
    }
}

/// The error a step's message gives before its contents are read: it must
/// parse, carry no error code and carry the expected state.
pub open spec fn header_error(data: Seq<u8>, expected: u8) -> Option<PairingErrorView> {
    if parse_items(data) is None {
        Some(PairingErrorView::TlvError(TlvError::BufferTooShort))
    } else {
        match device_error_code(data) {
            Some(c) => Some(PairingErrorView::DeviceError { code: c }),
            None => match tlv_field(data, TlvType::State) {
                None => Some(PairingErrorView::TlvError(TlvError::MissingField(TlvType::State))),
                Some(v) => if v.len() != 1 {
                    Some(PairingErrorView::TlvError(TlvError::InvalidValue(TlvType::State)))
                } else if v[0] != expected {
                    Some(
                        PairingErrorView::InvalidState {
                            expected: decimal(expected as nat),
                            actual: decimal(v[0] as nat),
                        },
                    )
                } else {
                    None
                },
            },
        }
    }
}

/// The decimal text of a byte.
fn byte_text(b: u8) -> (r: String)
    ensures
        r@ == decimal(b as nat),
{
    let mut s = String::new();
    push_decimal(&mut s, b as u64);
    assert(s@ =~= decimal(b as nat));
    s
}

/// Decode a step's message and check its header: no error code, and the
/// expected state.
pub(crate) fn read_step(data: &[u8], expected: u8) -> (r: Result<TlvDecoder, PairingError>)
    ensures
        match r {
            Ok(d) => header_error(data@, expected) is None && forall|t: TlvType|
                #[trigger] d.value_of(t.spec_byte()) == tlv_field(data@, t),
            Err(e) => header_error(data@, expected) == Some(e@),
        },
{
    let tlv = match TlvDecoder::decode(data) {
        Ok(d) => d,
        Err(e) => return Err(PairingError::TlvError(e)),
    };
    assert(tlv.value_of(TlvType::Error.spec_byte()) == tlv_field(data@, TlvType::Error));
    assert(tlv.value_of(TlvType::State.spec_byte()) == tlv_field(data@, TlvType::State));
    if let Some(code) = tlv.get_error() {
        return Err(PairingError::DeviceError { code });
    }
    let state = match tlv.get_state() {
        Ok(s) => s,
        Err(e) => return Err(PairingError::TlvError(e)),
    };
    if state != expected {
        return Err(PairingError::InvalidState { expected: byte_text(expected), actual: byte_text(state) });
    }
    Ok(tlv)
}

} // verus!
