//! Pair-Setup: PIN-based pairing with SRP-6a, the first time a client meets
//! a device that asks for authentication. The user enters the PIN that the
//! device shows.
use vstd::prelude::*;
use vstd::utf8::encode_utf8;
use super::tlv::{encode_item, errors, methods, parse_items, TlvEncoder, TlvType};
use super::{
    header_error, read_step, state_name, state_text, tlv_field, PairingError, PairingErrorView,
    PairingState, PairingStepResult, SessionKeys,
};
use crate::bytes::be_value;
use crate::crypto::chacha::{chacha20poly1305_open, chacha20poly1305_seal, ChaCha20Poly1305Cipher, Nonce};
use crate::crypto::ed25519::{
    ed25519_point_valid, ed25519_public_key, ed25519_signature, ed25519_verifies, Ed25519KeyPair,
    Ed25519PublicKey, Ed25519Signature,
};
use crate::crypto::hkdf::{hkdf_sha512_okm, HkdfSha512};
use crate::crypto::srp::{
    client_base, min_be, mod_pow, pad384, radix16_value, rfc5054_3072_hex, session_key, srp_k,
    srp_m1, srp_m2, srp_u, srp_x, SrpClient, SrpVerifier,
};
use crate::crypto::CryptoError;

verus! {

/// The modulus of the RFC 5054 3072-bit group.
pub open spec fn srp_n() -> nat {
    radix16_value(rfc5054_3072_hex()).unwrap()
}

/// The SRP user name of Pair-Setup.
pub open spec fn setup_user() -> Seq<u8> {
    encode_utf8("Pair-Setup"@)
}

/// The identifier this controller announces: the bytes of `airplay2-rs`.
pub open spec fn controller_id() -> Seq<u8> {
    seq![0x61u8, 0x69, 0x72, 0x70, 0x6c, 0x61, 0x79, 0x32, 0x2d, 0x72, 0x73]
}

/// The nonce of the device's last message: four zero bytes, then the bytes
/// of `PS-Msg06`.
pub open spec fn msg06_nonce() -> Seq<u8> {
    seq![0u8, 0, 0, 0, 0x50, 0x53, 0x2d, 0x4d, 0x73, 0x67, 0x30, 0x36]
}

/// The salt of the keys derived from the SRP session key.
pub open spec fn setup_salt() -> Option<Seq<u8>> {
    Some(encode_utf8("Pair-Setup-Encrypt-Salt"@))
}

/// A key derived from the SRP session key with the Pair-Setup salt.
pub open spec fn setup_key(session: Seq<u8>, info: Seq<char>) -> Seq<u8> {
    hkdf_sha512_okm(setup_salt(), session, encode_utf8(info), 32)
}

/// The SRP values of the client for the device's salt and public value,
/// with secret exponent `a`: the padded public value A, the proof M1 and
/// the session key K.
pub open spec fn client_srp(a: nat, pin: Seq<char>, salt: Seq<u8>, server_public: Seq<u8>) -> (
    Seq<u8>,
    Seq<u8>,
    Seq<u8>,
) {
    let n = srp_n();
    let g = 5nat;
    let a_pub = pad384(min_be(mod_pow(g, a, n)));
    let b = be_value(server_public);
    let x = srp_x(setup_user(), encode_utf8(pin), salt);
    let u = srp_u(a_pub, pad384(min_be(b)));
    let key = session_key(mod_pow(client_base(n, g, srp_k(n, g), b, x), a + u * x, n));
    (a_pub, srp_m1(n, g, setup_user(), salt, be_value(a_pub), b, key), key)
}

/// The controller's encrypted identity (M5) for a session key: identifier,
/// long-term public key and the signature over a derived value, the
/// identifier and the public key.
pub open spec fn m5_message(secret: Seq<u8>, session: Seq<u8>) -> Seq<u8> {
    let pk = ed25519_public_key(secret);
    let x = setup_key(session, "Pair-Setup-Controller-Sign-Salt"@);
    let sig = ed25519_signature(secret, x + controller_id() + pk);
    let inner = encode_item(1, controller_id()) + encode_item(3, pk) + encode_item(10, sig);
    seq![6u8, 1, 5] + encode_item(
        5,
        chacha20poly1305_seal(
            setup_key(session, "Pair-Setup-Encrypt-Info"@),
            seq![0u8, 0, 0, 0, 0, 0, 0, 0, 0, 0, 0, 0],
            Seq::empty(),
            inner,
        ),
    )
}

/// A Pair-Setup session as the contracts see it.
pub struct SetupView {
    /// Progress
    pub state: PairingState,
    /// The PIN, once set
    pub pin: Option<Seq<char>>,
    /// The SRP verifier after M2: A, M1 and K
    pub verifier: Option<(nat, Seq<u8>, Seq<u8>)>,
    /// Our long-term Ed25519 secret key
    pub secret: Seq<u8>,
    /// The SRP session key after M4
    pub session_key: Option<Seq<u8>>,
    /// The device's long-term public key after M6
    pub device_ltpk: Option<Seq<u8>>,
}

/// A session in another state, all else kept.
pub open spec fn with_state(v: SetupView, s: PairingState) -> SetupView {
    SetupView { state: s, ..v }
}

/// What a step does when its message header is refused: the error, and the
/// Failed state when the device reported the error.
pub open spec fn header_refused(
    old: SetupView,
    new: SetupView,
    r: Result<PairingStepResult, PairingError>,
    ev: PairingErrorView,
) -> bool {
    &&& r matches Err(e) && e@ == ev
    &&& new == (if ev is DeviceError {
        with_state(old, PairingState::Failed)
    } else {
        old
    })
}

/// A refused step that leaves the session as it was.
pub open spec fn refused(
    old: SetupView,
    new: SetupView,
    r: Result<PairingStepResult, PairingError>,
    ev: PairingErrorView,
) -> bool {
    r matches Err(e) && e@ == ev && new == old
}

/// What starting does: M1 (state 1, method Pair-Setup) in the Init state,
/// else the error.
pub open spec fn start_outcome(old: SetupView, r: Result<Vec<u8>, PairingError>, new: SetupView) -> bool {
    if old.state != PairingState::Init {
        &&& r matches Err(e) && e@ == PairingErrorView::InvalidState {
            expected: "Init"@,
            actual: state_name(old.state),
        }
        &&& new == old
    } else {
        &&& r matches Ok(m1) && m1@ == seq![6u8, 1, 1, 0, 1, 0]
        &&& new == with_state(old, PairingState::WaitingResponse)
    }
}

/// What processing M2 (the device's salt and public value B) does.
pub open spec fn m2_outcome(
    old: SetupView,
    data: Seq<u8>,
    r: Result<PairingStepResult, PairingError>,
    new: SetupView,
) -> bool {
    match header_error(data, 2) {
        Some(ev) => header_refused(old, new, r, ev),
        None => match tlv_field(data, TlvType::Salt) {
            None => refused(
                old,
                new,
                r,
                PairingErrorView::TlvError(super::tlv::TlvError::MissingField(TlvType::Salt)),
            ),
            Some(salt) => match tlv_field(data, TlvType::PublicKey) {
                None => refused(
                    old,
                    new,
                    r,
                    PairingErrorView::TlvError(super::tlv::TlvError::MissingField(TlvType::PublicKey)),
                ),
                Some(b) => match old.pin {
                    None => refused(
                        old,
                        new,
                        r,
                        PairingErrorView::AuthenticationFailed("PIN not set"@),
                    ),
                    Some(pin) => if radix16_value(rfc5054_3072_hex()) is None {
                        r matches Err(e) && e@ matches PairingErrorView::CryptoError(
                            CryptoError::SrpError(m),
                        ) && m@ == "Failed to parse N"@ && new == old
                    } else if be_value(b) % srp_n() == 0 {
                        r matches Err(e) && e@ matches PairingErrorView::CryptoError(
                            CryptoError::SrpError(m),
                        ) && m@ == "Invalid server public key"@ && new == old
                    } else {
                        r matches Ok(PairingStepResult::SendData(m3)) && exists|a: nat|
                            #![trigger client_srp(a, pin, salt, b)]
                            a < srp_n() && {
                                let (a_pub, m1, key) = client_srp(a, pin, salt, b);
                                &&& m3@ == seq![6u8, 1, 3] + encode_item(3, a_pub) + encode_item(
                                    4,
                                    m1,
                                )
                                &&& new == SetupView {
                                    state: PairingState::SrpExchange,
                                    verifier: Some((be_value(a_pub), m1, key)),
                                    ..old
                                }
                            }
                    },
                },
            },
        },
    }
}

/// What processing M4 (the device's proof M2) does.
pub open spec fn m4_outcome(
    old: SetupView,
    data: Seq<u8>,
    r: Result<PairingStepResult, PairingError>,
    new: SetupView,
) -> bool {
    match header_error(data, 4) {
        Some(PairingErrorView::DeviceError { code }) => if code == errors::AUTHENTICATION {
            (r matches Err(e) && e@ == PairingErrorView::SrpVerificationFailed) && new == with_state(
                old,
                PairingState::Failed,
            )
        } else {
            header_refused(old, new, r, PairingErrorView::DeviceError { code })
        },
        Some(ev) => header_refused(old, new, r, ev),
        None => match tlv_field(data, TlvType::Proof) {
            None => refused(
                old,
                new,
                r,
                PairingErrorView::TlvError(super::tlv::TlvError::MissingField(TlvType::Proof)),
            ),
            Some(proof) => match old.verifier {
                None => refused(
                    old,
                    new,
                    r,
                    PairingErrorView::InvalidState { expected: "SrpVerifier"@, actual: "None"@ },
                ),
                Some((a_pub, m1, key)) => if proof != srp_m2(a_pub, m1, key) {
                    refused(old, new, r, PairingErrorView::SrpVerificationFailed)
                } else {
                    &&& r matches Ok(PairingStepResult::SendData(m5)) && m5@ == m5_message(
                        old.secret,
                        key,
                    )
                    &&& new == SetupView {
                        state: PairingState::KeyExchange,
                        session_key: Some(key),
                        ..old
                    }
                },
            },
        },
    }
}

/// What checking the device's identity in M6 gives: the error when its
/// signature over a derived value, its identifier and its public key does
/// not verify.
pub open spec fn device_identity_error(
    session: Seq<u8>,
    id: Seq<u8>,
    ltpk: Seq<u8>,
    sig: Seq<u8>,
) -> Option<CryptoError> {
    let x = hkdf_sha512_okm(
        Some(encode_utf8("Pair-Setup-Accessory-Sign-Salt"@)),
        session,
        encode_utf8("Pair-Setup-Accessory-Sign-Info"@),
        32,
    );
    if ltpk.len() != 32 {
        Some(CryptoError::InvalidKeyLength { expected: 32, actual: ltpk.len() as usize })
    } else if !ed25519_point_valid(ltpk) {
        Some(CryptoError::InvalidPublicKey)
    } else if sig.len() != 64 {
        Some(CryptoError::InvalidSignature)
    } else if !ed25519_verifies(ltpk, x + id + ltpk, sig) {
        Some(CryptoError::InvalidSignature)
    } else {
        None
    }
}

/// What processing M6 (the device's encrypted identity) does.
pub open spec fn m6_outcome(
    old: SetupView,
    data: Seq<u8>,
    r: Result<PairingStepResult, PairingError>,
    new: SetupView,
) -> bool {
    match header_error(data, 6) {
        Some(ev) => header_refused(old, new, r, ev),
        None => match tlv_field(data, TlvType::EncryptedData) {
            None => refused(
                old,
                new,
                r,
                PairingErrorView::TlvError(super::tlv::TlvError::MissingField(TlvType::EncryptedData)),
            ),
            Some(enc) => match old.session_key {
                None => refused(
                    old,
                    new,
                    r,
                    PairingErrorView::InvalidState { expected: "session_key"@, actual: "none"@ },
                ),
                Some(key) => match chacha20poly1305_open(
                    setup_key(key, "Pair-Setup-Encrypt-Info"@),
                    msg06_nonce(),
                    Seq::empty(),
                    enc,
                ) {
                    None => r matches Err(e) && e@ matches PairingErrorView::CryptoError(
                        CryptoError::DecryptionFailed(_),
                    ) && new == old,
                    Some(inner) => if parse_items(inner) is None {
                        refused(
                            old,
                            new,
                            r,
                            PairingErrorView::TlvError(super::tlv::TlvError::BufferTooShort),
                        )
                    } else {
                        m6_identity_outcome(old, key, inner, r, new)
                    },
                },
            },
        },
    }
}

/// What M6 does once its contents decrypt to a TLV message.
pub open spec fn m6_identity_outcome(
    old: SetupView,
    key: Seq<u8>,
    inner: Seq<u8>,
    r: Result<PairingStepResult, PairingError>,
    new: SetupView,
) -> bool {
    match tlv_field(inner, TlvType::PublicKey) {
        None => refused(
            old,
            new,
            r,
            PairingErrorView::TlvError(super::tlv::TlvError::MissingField(TlvType::PublicKey)),
        ),
        Some(ltpk) => match tlv_field(inner, TlvType::Identifier) {
            None => refused(
                old,
                new,
                r,
                PairingErrorView::TlvError(super::tlv::TlvError::MissingField(TlvType::Identifier)),
            ),
            Some(id) => match tlv_field(inner, TlvType::Signature) {
                None => refused(
                    old,
                    new,
                    r,
                    PairingErrorView::TlvError(super::tlv::TlvError::MissingField(TlvType::Signature)),
                ),
                Some(sig) => match device_identity_error(key, id, ltpk, sig) {
                    Some(ce) => refused(old, new, r, PairingErrorView::CryptoError(ce)),
                    None => {
                        &&& r matches Ok(PairingStepResult::Complete(k)) && {
                            &&& k.encrypt_key@ == setup_key(key, "Control-Write-Encryption-Key"@)
                            &&& k.decrypt_key@ == setup_key(key, "Control-Read-Encryption-Key"@)
                            &&& k.encrypt_nonce == 0
                            &&& k.decrypt_nonce == 0
                        }
                        &&& new == SetupView {
                            state: PairingState::Complete,
                            device_ltpk: Some(ltpk),
                            ..old
                        }
                    },
                },
            },
        },
    }
}

/// Whether the device's public value in a message, if it has one, is a
/// multiple of the group's prime N (which the SRP step refuses) or fits in
/// the 384 bytes of the group's numbers.
pub open spec fn server_public_fits(data: Seq<u8>) -> bool {
    tlv_field(data, TlvType::PublicKey) matches Some(b) ==> (be_value(b) % radix16_value(
        rfc5054_3072_hex(),
    ).unwrap() == 0 || min_be(be_value(b)).len() <= 384)
}

/// Pair-Setup session for PIN-based pairing.
pub struct PairSetup {
    state: PairingState,
    /// PIN entered by the user
    pin: Option<String>,
    /// SRP verifier (kept between M2 and M4)
    srp_verifier: Option<SrpVerifier>,
    /// Our Ed25519 long-term key pair
    signing_keypair: Ed25519KeyPair,
    /// Session key from SRP
    session_key: Option<Vec<u8>>,
    /// Device's Ed25519 public key
    device_ltpk: Option<Vec<u8>>,
}

impl View for PairSetup {
    type V = SetupView;

    closed spec fn view(&self) -> SetupView {
        SetupView {
            state: self.state,
            pin: match self.pin {
                Some(p) => Some(p@),
                None => None,
            },
            verifier: match self.srp_verifier {
                Some(v) => Some((v.a_pub(), v.m1(), v.key())),
                None => None,
            },
            secret: self.signing_keypair.secret(),
            session_key: match self.session_key {
                Some(k) => Some(k@),
                None => None,
            },
            device_ltpk: match self.device_ltpk {
                Some(k) => Some(k@),
                None => None,
            },
        }
    }
}

/// A copy of a byte slice as a vector.
fn to_vec(s: &[u8]) -> (r: Vec<u8>)
    ensures
        r@ == s@,
{
    crate::bytes::copy_bytes(s)
}

impl PairSetup {
    /// A new session with a fresh long-term key pair.
    pub fn new() -> (r: Self)
        ensures
            r@.state == PairingState::Init,
            r@.pin is None,
            r@.verifier is None,
            r@.secret.len() == 32,
            r@.session_key is None,
            r@.device_ltpk is None,
    {
        let signing_keypair = Ed25519KeyPair::generate();
        Self {
            state: PairingState::Init,
            pin: None,
            srp_verifier: None,
            signing_keypair,
            session_key: None,
            device_ltpk: None,
        }
    }

    /// Set the PIN for authentication.
    pub fn set_pin(&mut self, pin: &str)
        ensures
            final(self)@ == (SetupView { pin: Some(pin@), ..old(self)@ }),
    {
        self.pin = Some(String::from_str(pin));
    }

    /// Start pairing: gives M1 (state 1, method Pair-Setup) in the Init
    /// state.
    pub fn start(&mut self) -> (r: Result<Vec<u8>, PairingError>)
        ensures
            start_outcome(old(self)@, r, final(self)@),
    {
        if self.state != PairingState::Init {
            return Err(
                PairingError::InvalidState {
                    expected: String::from_str("Init"),
                    actual: state_text(self.state),
                },
            );
        }
        let m1 = TlvEncoder::new().add_state(1).add_method(methods::PAIR_SETUP).build();
        self.state = PairingState::WaitingResponse;
        assert(m1@ =~= seq![6u8, 1, 1, 0, 1, 0]);
        Ok(m1)
    }

    /// Process M2 (salt and the device's public value) and give M3 (our
    /// public value and proof).
    pub fn process_m2(&mut self, data: &[u8]) -> (r: Result<PairingStepResult, PairingError>)
        requires
            server_public_fits(data@),
        ensures
            m2_outcome(old(self)@, data@, r, final(self)@),
    {
        let tlv = match read_step(data, 2) {
            Ok(t) => t,
            Err(e) => {
                if let PairingError::DeviceError { .. } = e {
                    self.state = PairingState::Failed;
                }
                return Err(e);
            },
        };
        let salt = match tlv.get_required(TlvType::Salt) {
            Ok(s) => s,
            Err(e) => return Err(PairingError::TlvError(e)),
        };
        let server_public = match tlv.get_required(TlvType::PublicKey) {
            Ok(s) => s,
            Err(e) => return Err(PairingError::TlvError(e)),
        };
        assert(tlv.value_of(TlvType::PublicKey.spec_byte()) == tlv_field(data@, TlvType::PublicKey));
        assert(tlv.value_of(TlvType::Salt.spec_byte()) == tlv_field(data@, TlvType::Salt));
        let pin = match &self.pin {
            Some(p) => p,
            None => return Err(PairingError::AuthenticationFailed(String::from_str("PIN not set"))),
        };
        let srp_client = match SrpClient::new() {
            Ok(c) => c,
            Err(e) => return Err(PairingError::CryptoError(e)),
        };
        let client_public = to_vec(srp_client.public_key());
        let verifier = match srp_client.process_challenge(
            "Pair-Setup".as_bytes(),
            pin.as_str().as_bytes(),
            salt,
            server_public,
        ) {
            Ok(v) => v,
            Err(e) => return Err(PairingError::CryptoError(e)),
        };
        let m3 = TlvEncoder::new().add_state(3).add(TlvType::PublicKey, client_public.as_slice()).add(
            TlvType::Proof,
            verifier.client_proof(),
        ).build();
        proof {
            let a = srp_client.a();
            let p = pin@;
            assert(client_srp(a, p, salt@, server_public@).0 == client_public@);
            assert(m3@ =~= seq![6u8, 1, 3] + encode_item(3, client_public@) + encode_item(
                4,
                verifier.m1(),
            ));
        }
        self.srp_verifier = Some(verifier);
        self.state = PairingState::SrpExchange;
        Ok(PairingStepResult::SendData(m3))
    }

    /// Process M4 (the device's proof) and give M5 (our encrypted, signed
    /// identity).
    pub fn process_m4(&mut self, data: &[u8]) -> (r: Result<PairingStepResult, PairingError>)
        ensures
            m4_outcome(old(self)@, data@, r, final(self)@),
    {
        let tlv = match read_step(data, 4) {
            Ok(t) => t,
            Err(e) => {
                if let PairingError::DeviceError { code } = e {
                    self.state = PairingState::Failed;
                    if code == errors::AUTHENTICATION {
                        return Err(PairingError::SrpVerificationFailed);
                    }
                }
                return Err(e);
            },
        };
        let server_proof = match tlv.get_required(TlvType::Proof) {
            Ok(p) => p,
            Err(e) => return Err(PairingError::TlvError(e)),
        };
        assert(tlv.value_of(TlvType::Proof.spec_byte()) == tlv_field(data@, TlvType::Proof));
        let srp_verifier = match &self.srp_verifier {
            Some(v) => v,
            None => {
                return Err(
                    PairingError::InvalidState {
                        expected: String::from_str("SrpVerifier"),
                        actual: String::from_str("None"),
                    },
                )
            },
        };
        let srp_session_key = match srp_verifier.verify_server(server_proof) {
            Ok(k) => k,
            Err(_) => return Err(PairingError::SrpVerificationFailed),
        };
        let session_key = to_vec(srp_session_key.as_bytes());
        let hkdf = HkdfSha512::new(Some("Pair-Setup-Encrypt-Salt".as_bytes()), session_key.as_slice());
        let encrypt_key = match hkdf.expand_fixed::<32>("Pair-Setup-Encrypt-Info".as_bytes()) {
            Ok(k) => k,
            Err(e) => return Err(PairingError::CryptoError(e)),
        };
        let id: [u8; 11] = [0x61, 0x69, 0x72, 0x70, 0x6c, 0x61, 0x79, 0x32, 0x2d, 0x72, 0x73];
        assert(id@ == controller_id());
        let public = self.signing_keypair.public_key();
        let mut sign_data = match hkdf.expand("Pair-Setup-Controller-Sign-Salt".as_bytes(), 32) {
            Ok(x) => x,
            Err(e) => return Err(PairingError::CryptoError(e)),
        };
        let ghost x = sign_data@;
        sign_data.extend_from_slice(id.as_slice());
        sign_data.extend_from_slice(public.as_bytes().as_slice());
        assert(sign_data@ =~= x + controller_id() + public@);
        let signature = self.signing_keypair.sign(sign_data.as_slice());
        let sig_bytes = signature.to_bytes();
        let signed_tlv = TlvEncoder::new().add(TlvType::Identifier, id.as_slice()).add(
            TlvType::PublicKey,
            public.as_bytes().as_slice(),
        ).add(TlvType::Signature, sig_bytes.as_slice()).build();
        proof {
            assert(encode_item(1, id@) =~= seq![1u8, 11u8] + id@);
            assert(encode_item(3, public@) =~= seq![3u8, 32u8] + public@);
            assert(encode_item(10, sig_bytes@) =~= seq![10u8, 64u8] + sig_bytes@);
        }
        let cipher = match ChaCha20Poly1305Cipher::new(encrypt_key.as_slice()) {
            Ok(c) => c,
            Err(e) => return Err(PairingError::CryptoError(e)),
        };
        let zero: [u8; 12] = [0; 12];
        let nonce = match Nonce::from_bytes(zero.as_slice()) {
            Ok(n) => n,
            Err(e) => return Err(PairingError::CryptoError(e)),
        };
        let encrypted = match cipher.encrypt(&nonce, signed_tlv.as_slice()) {
            Ok(c) => c,
            Err(e) => return Err(PairingError::CryptoError(e)),
        };
        let m5 = TlvEncoder::new().add_state(5).add(TlvType::EncryptedData, encrypted.as_slice()).build();
        proof {
            assert(zero@ =~= seq![0u8, 0, 0, 0, 0, 0, 0, 0, 0, 0, 0, 0]);
            assert(m5@ =~= m5_message(self@.secret, session_key@));
        }
        self.session_key = Some(session_key);
        self.state = PairingState::KeyExchange;
        Ok(PairingStepResult::SendData(m5))
    }

    /// Process M6 (the device's encrypted identity): check the device's
    /// signature and complete pairing with the control channel keys.
    pub fn process_m6(&mut self, data: &[u8]) -> (r: Result<PairingStepResult, PairingError>)
        ensures
            m6_outcome(old(self)@, data@, r, final(self)@),
    {
        let tlv = match read_step(data, 6) {
            Ok(t) => t,
            Err(e) => {
                if let PairingError::DeviceError { .. } = e {
                    self.state = PairingState::Failed;
                }
                return Err(e);
            },
        };
        let encrypted = match tlv.get_required(TlvType::EncryptedData) {
            Ok(p) => p,
            Err(e) => return Err(PairingError::TlvError(e)),
        };
        assert(tlv.value_of(TlvType::EncryptedData.spec_byte()) == tlv_field(
            data@,
            TlvType::EncryptedData,
        ));
        let session_key = match &self.session_key {
            Some(k) => k,
            None => {
                return Err(
                    PairingError::InvalidState {
                        expected: String::from_str("session_key"),
                        actual: String::from_str("none"),
                    },
                )
            },
        };
        let hkdf = HkdfSha512::new(Some("Pair-Setup-Encrypt-Salt".as_bytes()), session_key.as_slice());
        let decrypt_key = match hkdf.expand_fixed::<32>("Pair-Setup-Encrypt-Info".as_bytes()) {
            Ok(k) => k,
            Err(e) => return Err(PairingError::CryptoError(e)),
        };
        let cipher = match ChaCha20Poly1305Cipher::new(decrypt_key.as_slice()) {
            Ok(c) => c,
            Err(e) => return Err(PairingError::CryptoError(e)),
        };
        let nonce_bytes: [u8; 12] = [0, 0, 0, 0, 0x50, 0x53, 0x2d, 0x4d, 0x73, 0x67, 0x30, 0x36];
        assert(nonce_bytes@ =~= msg06_nonce());
        let nonce = match Nonce::from_bytes(nonce_bytes.as_slice()) {
            Ok(n) => n,
            Err(e) => return Err(PairingError::CryptoError(e)),
        };
        let decrypted = match cipher.decrypt(&nonce, encrypted) {
            Ok(p) => p,
            Err(e) => return Err(PairingError::CryptoError(e)),
        };
        let device_tlv = match super::tlv::TlvDecoder::decode(decrypted.as_slice()) {
            Ok(d) => d,
            Err(e) => return Err(PairingError::TlvError(e)),
        };
        assert(device_tlv.value_of(TlvType::PublicKey.spec_byte()) == tlv_field(
            decrypted@,
            TlvType::PublicKey,
        ));
        assert(device_tlv.value_of(TlvType::Identifier.spec_byte()) == tlv_field(
            decrypted@,
            TlvType::Identifier,
        ));
        assert(device_tlv.value_of(TlvType::Signature.spec_byte()) == tlv_field(
            decrypted@,
            TlvType::Signature,
        ));
        let device_ltpk = match device_tlv.get_required(TlvType::PublicKey) {
            Ok(p) => p,
            Err(e) => return Err(PairingError::TlvError(e)),
        };
        let device_id = match device_tlv.get_required(TlvType::Identifier) {
            Ok(p) => p,
            Err(e) => return Err(PairingError::TlvError(e)),
        };
        let device_signature = match device_tlv.get_required(TlvType::Signature) {
            Ok(p) => p,
            Err(e) => return Err(PairingError::TlvError(e)),
        };
        let sign_hkdf = HkdfSha512::new(
            Some("Pair-Setup-Accessory-Sign-Salt".as_bytes()),
            session_key.as_slice(),
        );
        let mut sign_data = match sign_hkdf.expand("Pair-Setup-Accessory-Sign-Info".as_bytes(), 32) {
            Ok(x) => x,
            Err(e) => return Err(PairingError::CryptoError(e)),
        };
        let ghost x = sign_data@;
        sign_data.extend_from_slice(device_id);
        sign_data.extend_from_slice(device_ltpk);
        assert(sign_data@ =~= x + device_id@ + device_ltpk@);
        let device_public = match Ed25519PublicKey::from_bytes(device_ltpk) {
            Ok(k) => k,
            Err(e) => return Err(PairingError::CryptoError(e)),
        };
        let signature = match Ed25519Signature::from_bytes(device_signature) {
            Ok(s) => s,
            Err(e) => return Err(PairingError::CryptoError(e)),
        };
        match device_public.verify(sign_data.as_slice(), &signature) {
            Ok(()) => {},
            Err(e) => return Err(PairingError::CryptoError(e)),
        }
        self.device_ltpk = Some(to_vec(device_ltpk));
        self.state = PairingState::Complete;
        let encrypt_key = match hkdf.expand_fixed::<32>("Control-Write-Encryption-Key".as_bytes()) {
            Ok(k) => k,
            Err(e) => return Err(PairingError::CryptoError(e)),
        };
        let decrypt_key = match hkdf.expand_fixed::<32>("Control-Read-Encryption-Key".as_bytes()) {
            Ok(k) => k,
            Err(e) => return Err(PairingError::CryptoError(e)),
        };
        Ok(
            PairingStepResult::Complete(
                SessionKeys { encrypt_key, decrypt_key, encrypt_nonce: 0, decrypt_nonce: 0 },
            ),
        )
    }

    /// Our long-term public key (for storage).
    pub fn our_public_key(&self) -> (r: [u8; 32])
        ensures
            r@ == ed25519_public_key(self@.secret),
    {
        *self.signing_keypair.public_key().as_bytes()
    }

    /// Our long-term secret key (for storage).
    pub fn our_secret_key(&self) -> (r: [u8; 32])
        ensures
            r@ == self@.secret,
    {
        self.signing_keypair.secret_bytes()
    }

    /// The device's long-term public key (for storage), once pairing is
    /// complete.
    pub fn device_public_key(&self) -> (r: Option<&[u8]>)
        ensures
            match r {
                Some(k) => self@.device_ltpk == Some(k@),
                None => self@.device_ltpk is None,
            },
    {
        match &self.device_ltpk {
            Some(k) => Some(k.as_slice()),
            None => None,
        }
    }
}

/// The controller sends its identity (M5) only after the device's proof
/// matched the SRP exchange: M2 = H(A, M1, K).
pub proof fn lemma_m5_needs_server_proof(
    old: SetupView,
    data: Seq<u8>,
    r: Result<PairingStepResult, PairingError>,
    new: SetupView,
)
    requires
        m4_outcome(old, data, r, new),
        r is Ok,
    ensures
        old.verifier matches Some((a_pub, m1, key)) && tlv_field(data, TlvType::Proof) == Some(
            srp_m2(a_pub, m1, key),
        ) && new.session_key == Some(key),
{
}

/// Pair-Setup completes only when the device's signature over a value
/// derived from the session key, its identifier and its long-term public
/// key verifies under that key, which the session then holds.
pub proof fn lemma_complete_needs_device_signature(
    old: SetupView,
    data: Seq<u8>,
    r: Result<PairingStepResult, PairingError>,
    new: SetupView,
)
    requires
        m6_outcome(old, data, r, new),
        r is Ok,
    ensures
        new.state == PairingState::Complete,
        old.session_key matches Some(key) && new.device_ltpk matches Some(ltpk) && exists|
            id: Seq<u8>,
            sig: Seq<u8>,
        | #[trigger] device_identity_error(key, id, ltpk, sig) is None,
{
    let key = old.session_key.unwrap();
    let enc = tlv_field(data, TlvType::EncryptedData).unwrap();
    let inner = chacha20poly1305_open(
        setup_key(key, "Pair-Setup-Encrypt-Info"@),
        msg06_nonce(),
        Seq::empty(),
        enc,
    ).unwrap();
    let id = tlv_field(inner, TlvType::Identifier).unwrap();
    let sig = tlv_field(inner, TlvType::Signature).unwrap();
    let ltpk = tlv_field(inner, TlvType::PublicKey).unwrap();
    assert(device_identity_error(key, id, ltpk, sig) is None);
}

/// An error code from the device leaves the session failed, whichever step
/// received it.
pub proof fn lemma_device_error_fails_session(
    old: SetupView,
    data: Seq<u8>,
    r: Result<PairingStepResult, PairingError>,
    new: SetupView,
)
    requires
        parse_items(data) is Some,
        super::device_error_code(data) is Some,
        m2_outcome(old, data, r, new) || m4_outcome(old, data, r, new) || m6_outcome(
            old,
            data,
            r,
            new,
        ),
    ensures
        r is Err,
        new == with_state(old, PairingState::Failed),
{
}

} // verus!
