//! Pair-Verify: fast verification with stored long-term keys, used after
//! Pair-Setup to establish a session without the PIN.
use vstd::prelude::*;
use vstd::utf8::encode_utf8;
use super::storage::KeysModel;
use super::tlv::{encode_item, errors, parse_items, TlvDecoder, TlvEncoder, TlvType};
use super::{
    header_error, read_step, state_name, state_text, tlv_field, PairingError, PairingErrorView,
    PairingKeys, PairingState, PairingStepResult, SessionKeys,
};
use crate::crypto::chacha::{chacha20poly1305_open, chacha20poly1305_seal, ChaCha20Poly1305Cipher, Nonce};
use crate::crypto::ed25519::{
    ed25519_point_valid, ed25519_signature, ed25519_verifies, Ed25519KeyPair, Ed25519PublicKey,
    Ed25519Signature,
};
use crate::crypto::hkdf::{hkdf_sha512_okm, HkdfSha512};
use crate::crypto::x25519::{x25519_public, x25519_shared, X25519KeyPair, X25519PublicKey};
use crate::crypto::CryptoError;

verus! {

/// The nonce of the device's M2: four zero bytes, then the bytes of
/// `PV-Msg02`.
pub open spec fn msg02_nonce() -> Seq<u8> {
    seq![0u8, 0, 0, 0, 0x50, 0x56, 0x2d, 0x4d, 0x73, 0x67, 0x30, 0x32]
}

/// The nonce of our M3: four zero bytes, then the bytes of `PV-Msg03`.
pub open spec fn msg03_nonce() -> Seq<u8> {
    seq![0u8, 0, 0, 0, 0x50, 0x56, 0x2d, 0x4d, 0x73, 0x67, 0x30, 0x33]
}

/// The key that encrypts the verification messages, from the shared
/// secret of the ephemeral keys.
pub open spec fn verify_session_key(shared: Seq<u8>) -> Seq<u8> {
    hkdf_sha512_okm(
        Some(encode_utf8("Pair-Verify-Encrypt-Salt"@)),
        shared,
        encode_utf8("Pair-Verify-Encrypt-Info"@),
        32,
    )
}

/// A control channel key derived from the shared secret.
pub open spec fn control_key(shared: Seq<u8>, info: Seq<char>) -> Seq<u8> {
    hkdf_sha512_okm(Some(encode_utf8("Control-Salt"@)), shared, encode_utf8(info), 32)
}

/// A Pair-Verify session as the contracts see it.
pub struct VerifyView {
    /// Progress
    pub state: PairingState,
    /// Our stored keys
    pub our_keys: KeysModel,
    /// The device's long-term public key
    pub device_ltpk: Seq<u8>,
    /// Our ephemeral X25519 secret key
    pub eph_secret: Seq<u8>,
    /// The device's ephemeral public key, after M2
    pub device_ephemeral: Option<Seq<u8>>,
    /// The shared secret of the ephemeral keys, after M2
    pub shared_secret: Option<Seq<u8>>,
    /// The session encryption key, after M2
    pub session_key: Option<Seq<u8>>,
}

/// A session in another state, all else kept.
pub open spec fn with_state(v: VerifyView, s: PairingState) -> VerifyView {
    VerifyView { state: s, ..v }
}

/// A refused step that leaves the session as it was.
pub open spec fn refused(
    old: VerifyView,
    new: VerifyView,
    r: Result<PairingStepResult, PairingError>,
    ev: PairingErrorView,
) -> bool {
    r matches Err(e) && e@ == ev && new == old
}

/// What starting does: M1 (state 1 and our ephemeral public key) in the
/// Init state, else the error.
pub open spec fn start_outcome(old: VerifyView, r: Result<Vec<u8>, PairingError>, new: VerifyView) -> bool {
    if old.state != PairingState::Init {
        &&& r matches Err(e) && e@ == PairingErrorView::InvalidState {
            expected: "Init"@,
            actual: state_name(old.state),
        }
        &&& new == old
    } else {
        &&& r matches Ok(m1) && m1@ == seq![6u8, 1, 1] + encode_item(3, x25519_public(old.eph_secret))
        &&& new == with_state(old, PairingState::WaitingResponse)
    }
}

/// What processing M2 (the device's ephemeral key and encrypted signature)
/// does.
pub open spec fn m2_outcome(
    old: VerifyView,
    data: Seq<u8>,
    r: Result<PairingStepResult, PairingError>,
    new: VerifyView,
) -> bool {
    match header_error(data, 2) {
        Some(ev) => {
            &&& r matches Err(e) && e@ == ev
            &&& new == (if ev is DeviceError {
                with_state(old, PairingState::Failed)
            } else {
                old
            })
        },
        None => match tlv_field(data, TlvType::PublicKey) {
            None => refused(
                old,
                new,
                r,
                PairingErrorView::TlvError(super::tlv::TlvError::MissingField(TlvType::PublicKey)),
            ),
            Some(dev) => match tlv_field(data, TlvType::EncryptedData) {
                None => refused(
                    old,
                    new,
                    r,
                    PairingErrorView::TlvError(super::tlv::TlvError::MissingField(TlvType::EncryptedData)),
                ),
                Some(enc) => if dev.len() != 32 {
                    refused(
                        old,
                        new,
                        r,
                        PairingErrorView::CryptoError(
                            CryptoError::InvalidKeyLength { expected: 32, actual: dev.len() as usize },
                        ),
                    )
                } else {
                    let shared = x25519_shared(old.eph_secret, dev);
                    let sk = verify_session_key(shared);
                    match chacha20poly1305_open(sk, msg02_nonce(), Seq::empty(), enc) {
                        None => r matches Err(e) && e@ matches PairingErrorView::CryptoError(
                            CryptoError::DecryptionFailed(_),
                        ) && new == old,
                        Some(inner) => if parse_items(inner) is None {
                            refused(
                                old,
                                new,
                                r,
                                PairingErrorView::TlvError(super::tlv::TlvError::BufferTooShort),
                            )
                        } else {
                            m2_signature_outcome(old, dev, shared, inner, r, new)
                        },
                    }
                },
            },
        },
    }
}

/// What M2 does once its contents decrypt to a TLV message: check the
/// device's signature over both ephemeral keys and answer with ours.
pub open spec fn m2_signature_outcome(
    old: VerifyView,
    dev: Seq<u8>,
    shared: Seq<u8>,
    inner: Seq<u8>,
    r: Result<PairingStepResult, PairingError>,
    new: VerifyView,
) -> bool {
    let our_pub = x25519_public(old.eph_secret);
    match tlv_field(inner, TlvType::Identifier) {
        None => refused(
            old,
            new,
            r,
            PairingErrorView::TlvError(super::tlv::TlvError::MissingField(TlvType::Identifier)),
        ),
        Some(_) => match tlv_field(inner, TlvType::Signature) {
            None => refused(
                old,
                new,
                r,
                PairingErrorView::TlvError(super::tlv::TlvError::MissingField(TlvType::Signature)),
            ),
            Some(sig) => if sig.len() != 64 || !ed25519_verifies(
                old.device_ltpk,
                dev + our_pub,
                sig,
            ) {
                refused(old, new, r, PairingErrorView::CryptoError(CryptoError::InvalidSignature))
            } else {
                let our_sig = ed25519_signature(old.our_keys.secret_key, our_pub + dev);
                let reply = encode_item(1, old.our_keys.identifier) + encode_item(10, our_sig);
                let sk = verify_session_key(shared);
                match r {
                    Ok(PairingStepResult::SendData(m3)) => {
                        &&& m3@ == seq![6u8, 1, 3] + encode_item(
                            5,
                            chacha20poly1305_seal(sk, msg03_nonce(), Seq::empty(), reply),
                        )
                        &&& new == VerifyView {
                            state: PairingState::Verifying,
                            device_ephemeral: Some(dev),
                            shared_secret: Some(shared),
                            session_key: Some(sk),
                            ..old
                        }
                    },
                    Ok(PairingStepResult::Complete(_)) => false,
                    Err(e) => {
                        &&& reply.len() / 64 >= 0xFFFF_FFFF
                        &&& e@ matches PairingErrorView::CryptoError(CryptoError::EncryptionFailed(_))
                        &&& new == old
                    },
                }
            },
        },
    }
}

/// What processing M4 (the device's confirmation) does.
pub open spec fn m4_outcome(
    old: VerifyView,
    data: Seq<u8>,
    r: Result<PairingStepResult, PairingError>,
    new: VerifyView,
) -> bool {
    match header_error(data, 4) {
        Some(PairingErrorView::DeviceError { code }) => {
            &&& r matches Err(e) && e@ == (if code == errors::AUTHENTICATION {
                PairingErrorView::SignatureVerificationFailed
            } else {
                PairingErrorView::DeviceError { code }
            })
            &&& new == with_state(old, PairingState::Failed)
        },
        Some(ev) => refused(old, new, r, ev),
        None => match old.shared_secret {
            None => refused(
                old,
                new,
                r,
                PairingErrorView::InvalidState { expected: "shared_secret"@, actual: "none"@ },
            ),
            Some(shared) => {
                &&& r matches Ok(PairingStepResult::Complete(k)) && {
                    &&& k.encrypt_key@ == control_key(shared, "Control-Write-Encryption-Key"@)
                    &&& k.decrypt_key@ == control_key(shared, "Control-Read-Encryption-Key"@)
                    &&& k.encrypt_nonce == 0
                    &&& k.decrypt_nonce == 0
                }
                &&& new == with_state(old, PairingState::Complete)
            },
        },
    }
}

/// Pair-Verify session.
pub struct PairVerify {
    state: PairingState,
    /// Our stored keys
    our_keys: PairingKeys,
    /// Device's stored public key
    device_ltpk: Ed25519PublicKey,
    /// Ephemeral X25519 key pair for this session
    ephemeral_keypair: X25519KeyPair,
    /// Device's ephemeral public key
    device_ephemeral: Option<X25519PublicKey>,
    /// Shared secret from the ephemeral exchange
    shared_secret: Option<[u8; 32]>,
    /// Session encryption key
    session_key: Option<[u8; 32]>,
}

impl View for PairVerify {
    type V = VerifyView;

    closed spec fn view(&self) -> VerifyView {
        VerifyView {
            state: self.state,
            our_keys: self.our_keys@,
            device_ltpk: self.device_ltpk@,
            eph_secret: self.ephemeral_keypair.secret(),
            device_ephemeral: match self.device_ephemeral {
                Some(k) => Some(k@),
                None => None,
            },
            shared_secret: match self.shared_secret {
                Some(s) => Some(s@),
                None => None,
            },
            session_key: match self.session_key {
                Some(s) => Some(s@),
                None => None,
            },
        }
    }
}

impl PairVerify {
    #[verifier::type_invariant]
    spec fn ephemeral_matches(self) -> bool {
        self.ephemeral_keypair.public() == x25519_public(self.ephemeral_keypair.secret())
    }

    /// A new session with stored keys and the device's long-term public
    /// key, and a fresh ephemeral key pair.
    pub fn new(our_keys: PairingKeys, device_ltpk: &[u8]) -> (r: Result<Self, PairingError>)
        ensures
            match r {
                Ok(v) => {
                    &&& device_ltpk@.len() == 32 && ed25519_point_valid(device_ltpk@)
                    &&& v@.state == PairingState::Init
                    &&& v@.our_keys == our_keys@
                    &&& v@.device_ltpk == device_ltpk@
                    &&& v@.device_ephemeral is None
                    &&& v@.shared_secret is None
                    &&& v@.session_key is None
                },
                Err(e) => e@ == PairingErrorView::CryptoError(
                    if device_ltpk@.len() != 32 {
                        CryptoError::InvalidKeyLength {
                            expected: 32,
                            actual: device_ltpk@.len() as usize,
                        }
                    } else {
                        CryptoError::InvalidPublicKey
                    },
                ) && (device_ltpk@.len() != 32 || !ed25519_point_valid(device_ltpk@)),
            },
    {
        let device_ltpk = match Ed25519PublicKey::from_bytes(device_ltpk) {
            Ok(k) => k,
            Err(e) => return Err(PairingError::CryptoError(e)),
        };
        let ephemeral_keypair = X25519KeyPair::generate();
        Ok(
            Self {
                state: PairingState::Init,
                our_keys,
                device_ltpk,
                ephemeral_keypair,
                device_ephemeral: None,
                shared_secret: None,
                session_key: None,
            },
        )
    }

    /// Start verification: gives M1 (state 1 and our ephemeral public key)
    /// in the Init state.
    pub fn start(&mut self) -> (r: Result<Vec<u8>, PairingError>)
        ensures
            start_outcome(old(self)@, r, final(self)@),
    {
        proof {
            use_type_invariant(&*self);
        }
        if self.state != PairingState::Init {
            return Err(
                PairingError::InvalidState {
                    expected: String::from_str("Init"),
                    actual: state_text(self.state),
                },
            );
        }
        let public = self.ephemeral_keypair.public_key();
        let m1 = TlvEncoder::new().add_state(1).add(TlvType::PublicKey, public.as_bytes().as_slice()).build();
        self.state = PairingState::WaitingResponse;
        Ok(m1)
    }

    /// Process M2 (the device's ephemeral key and encrypted signature):
    /// check the device's signature and give M3 (our encrypted signature).
    pub fn process_m2(&mut self, data: &[u8]) -> (r: Result<PairingStepResult, PairingError>)
        ensures
            m2_outcome(old(self)@, data@, r, final(self)@),
    {
        proof {
            use_type_invariant(&*self);
        }
        let tlv = match read_step(data, 2) {
            Ok(t) => t,
            Err(e) => {
                if let PairingError::DeviceError { .. } = e {
                    self.state = PairingState::Failed;
                }
                return Err(e);
            },
        };
        assert(tlv.value_of(TlvType::PublicKey.spec_byte()) == tlv_field(data@, TlvType::PublicKey));
        assert(tlv.value_of(TlvType::EncryptedData.spec_byte()) == tlv_field(
            data@,
            TlvType::EncryptedData,
        ));
        let device_ephemeral_bytes = match tlv.get_required(TlvType::PublicKey) {
            Ok(v) => v,
            Err(e) => return Err(PairingError::TlvError(e)),
        };
        let encrypted_data = match tlv.get_required(TlvType::EncryptedData) {
            Ok(v) => v,
            Err(e) => return Err(PairingError::TlvError(e)),
        };
        let device_ephemeral = match X25519PublicKey::from_bytes(device_ephemeral_bytes) {
            Ok(k) => k,
            Err(e) => return Err(PairingError::CryptoError(e)),
        };
        let shared = self.ephemeral_keypair.diffie_hellman(&device_ephemeral);
        let hkdf = HkdfSha512::new(Some("Pair-Verify-Encrypt-Salt".as_bytes()), shared.as_bytes().as_slice());
        let session_key = match hkdf.expand_fixed::<32>("Pair-Verify-Encrypt-Info".as_bytes()) {
            Ok(k) => k,
            Err(e) => return Err(PairingError::CryptoError(e)),
        };
        let cipher = match ChaCha20Poly1305Cipher::new(session_key.as_slice()) {
            Ok(c) => c,
            Err(e) => return Err(PairingError::CryptoError(e)),
        };
        let nonce02: [u8; 12] = [0, 0, 0, 0, 0x50, 0x56, 0x2d, 0x4d, 0x73, 0x67, 0x30, 0x32];
        assert(nonce02@ =~= msg02_nonce());
        let nonce = match Nonce::from_bytes(nonce02.as_slice()) {
            Ok(n) => n,
            Err(e) => return Err(PairingError::CryptoError(e)),
        };
        let decrypted = match cipher.decrypt(&nonce, encrypted_data) {
            Ok(p) => p,
            Err(e) => return Err(PairingError::CryptoError(e)),
        };
        let device_tlv = match TlvDecoder::decode(decrypted.as_slice()) {
            Ok(d) => d,
            Err(e) => return Err(PairingError::TlvError(e)),
        };
        assert(device_tlv.value_of(TlvType::Identifier.spec_byte()) == tlv_field(
            decrypted@,
            TlvType::Identifier,
        ));
        assert(device_tlv.value_of(TlvType::Signature.spec_byte()) == tlv_field(
            decrypted@,
            TlvType::Signature,
        ));
        let _device_identifier = match device_tlv.get_required(TlvType::Identifier) {
            Ok(v) => v,
            Err(e) => return Err(PairingError::TlvError(e)),
        };
        let device_signature = match device_tlv.get_required(TlvType::Signature) {
            Ok(v) => v,
            Err(e) => return Err(PairingError::TlvError(e)),
        };
        let our_public = self.ephemeral_keypair.public_key();
        let mut verify_data: Vec<u8> = Vec::new();
        verify_data.extend_from_slice(device_ephemeral_bytes);
        verify_data.extend_from_slice(our_public.as_bytes().as_slice());
        assert(verify_data@ =~= device_ephemeral_bytes@ + x25519_public(self@.eph_secret));
        let signature = match Ed25519Signature::from_bytes(device_signature) {
            Ok(s) => s,
            Err(e) => return Err(PairingError::CryptoError(e)),
        };
        match self.device_ltpk.verify(verify_data.as_slice(), &signature) {
            Ok(()) => {},
            Err(e) => return Err(PairingError::CryptoError(e)),
        }
        let mut sign_data: Vec<u8> = Vec::new();
        sign_data.extend_from_slice(our_public.as_bytes().as_slice());
        sign_data.extend_from_slice(device_ephemeral_bytes);
        assert(sign_data@ =~= x25519_public(self@.eph_secret) + device_ephemeral_bytes@);
        let our_keypair = match Ed25519KeyPair::from_bytes(self.our_keys.secret_key.as_slice()) {
            Ok(k) => k,
            Err(e) => return Err(PairingError::CryptoError(e)),
        };
        let our_signature = our_keypair.sign(sign_data.as_slice());
        let sig_bytes = our_signature.to_bytes();
        let inner_tlv = TlvEncoder::new().add(TlvType::Identifier, self.our_keys.identifier.as_slice()).add(
            TlvType::Signature,
            sig_bytes.as_slice(),
        ).build();
        let nonce03: [u8; 12] = [0, 0, 0, 0, 0x50, 0x56, 0x2d, 0x4d, 0x73, 0x67, 0x30, 0x33];
        assert(nonce03@ =~= msg03_nonce());
        let nonce = match Nonce::from_bytes(nonce03.as_slice()) {
            Ok(n) => n,
            Err(e) => return Err(PairingError::CryptoError(e)),
        };
        let encrypted = match cipher.encrypt(&nonce, inner_tlv.as_slice()) {
            Ok(c) => c,
            Err(e) => return Err(PairingError::CryptoError(e)),
        };
        let m3 = TlvEncoder::new().add_state(3).add(TlvType::EncryptedData, encrypted.as_slice()).build();
        self.device_ephemeral = Some(device_ephemeral);
        self.shared_secret = Some(*shared.as_bytes());
        self.session_key = Some(session_key);
        self.state = PairingState::Verifying;
        Ok(PairingStepResult::SendData(m3))
    }

    /// Process M4 (the device's confirmation): complete verification with
    /// the control channel keys.
    pub fn process_m4(&mut self, data: &[u8]) -> (r: Result<PairingStepResult, PairingError>)
        ensures
            m4_outcome(old(self)@, data@, r, final(self)@),
    {
        proof {
            use_type_invariant(&*self);
        }
        let _tlv = match read_step(data, 4) {
            Ok(t) => t,
            Err(e) => {
                if let PairingError::DeviceError { code } = e {
                    self.state = PairingState::Failed;
                    if code == errors::AUTHENTICATION {
                        return Err(PairingError::SignatureVerificationFailed);
                    }
                }
                return Err(e);
            },
        };
        let shared_secret = match &self.shared_secret {
            Some(s) => s,
            None => {
                return Err(
                    PairingError::InvalidState {
                        expected: String::from_str("shared_secret"),
                        actual: String::from_str("none"),
                    },
                )
            },
        };
        let hkdf = HkdfSha512::new(Some("Control-Salt".as_bytes()), shared_secret.as_slice());
        let encrypt_key = match hkdf.expand_fixed::<32>("Control-Write-Encryption-Key".as_bytes()) {
            Ok(k) => k,
            Err(e) => return Err(PairingError::CryptoError(e)),
        };
        let decrypt_key = match hkdf.expand_fixed::<32>("Control-Read-Encryption-Key".as_bytes()) {
            Ok(k) => k,
            Err(e) => return Err(PairingError::CryptoError(e)),
        };
        self.state = PairingState::Complete;
        Ok(
            PairingStepResult::Complete(
                SessionKeys { encrypt_key, decrypt_key, encrypt_nonce: 0, decrypt_nonce: 0 },
            ),
        )
    }
}

/// A completed Pair-Verify gives the control channel's keys from the
/// X25519 shared secret by HKDF-SHA512 with salt `Control-Salt`: we encrypt
/// what we send with the key for info `Control-Write-Encryption-Key` and
/// decrypt what we receive with the key for `Control-Read-Encryption-Key`,
/// both 32 bytes, with both nonce counters at zero.
pub proof fn lemma_control_channel_keys(
    old: VerifyView,
    data: Seq<u8>,
    r: Result<PairingStepResult, PairingError>,
    new: VerifyView,
)
    requires
        m4_outcome(old, data, r, new),
        r matches Ok(PairingStepResult::Complete(_)),
    ensures
        old.shared_secret is Some,
        new.state == PairingState::Complete,
        r matches Ok(PairingStepResult::Complete(k)) && {
            &&& k.encrypt_key@ == hkdf_sha512_okm(
                Some(encode_utf8("Control-Salt"@)),
                old.shared_secret.unwrap(),
                encode_utf8("Control-Write-Encryption-Key"@),
                32,
            )
            &&& k.decrypt_key@ == hkdf_sha512_okm(
                Some(encode_utf8("Control-Salt"@)),
                old.shared_secret.unwrap(),
                encode_utf8("Control-Read-Encryption-Key"@),
                32,
            )
            &&& k.encrypt_nonce == 0
            &&& k.decrypt_nonce == 0
        },
{
}

/// Pair-Verify answers the device (M3) only when the device's signature
/// over its ephemeral key and ours verifies under its stored long-term
/// key; the answer then carries our signature over our key and its.
pub proof fn lemma_reply_needs_device_signature(
    old: VerifyView,
    data: Seq<u8>,
    r: Result<PairingStepResult, PairingError>,
    new: VerifyView,
)
    requires
        m2_outcome(old, data, r, new),
        r is Ok,
    ensures
        new.state == PairingState::Verifying,
        tlv_field(data, TlvType::PublicKey) matches Some(dev) && new.device_ephemeral == Some(dev)
            && exists|sig: Seq<u8>|
            #[trigger] ed25519_verifies(old.device_ltpk, dev + x25519_public(old.eph_secret), sig),
{
    let dev = tlv_field(data, TlvType::PublicKey).unwrap();
    let enc = tlv_field(data, TlvType::EncryptedData).unwrap();
    let shared = x25519_shared(old.eph_secret, dev);
    let inner = chacha20poly1305_open(verify_session_key(shared), msg02_nonce(), Seq::empty(), enc).unwrap();
    let sig = tlv_field(inner, TlvType::Signature).unwrap();
    assert(ed25519_verifies(old.device_ltpk, dev + x25519_public(old.eph_secret), sig));
}

/// Pair-Verify completes only after a verified M2: the keys come from the
/// shared secret that M2 established.
pub proof fn lemma_complete_needs_shared_secret(
    old: VerifyView,
    data: Seq<u8>,
    r: Result<PairingStepResult, PairingError>,
    new: VerifyView,
)
    requires
        m4_outcome(old, data, r, new),
        r is Ok,
    ensures
        old.shared_secret is Some,
        new.state == PairingState::Complete,
{
}

} // verus!
