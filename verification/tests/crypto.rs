use airplay2::crypto::aes::{Aes128Ctr, Aes128Gcm};
use airplay2::crypto::chacha::{ChaCha20Poly1305Cipher, Nonce};
use airplay2::crypto::ed25519::{Ed25519KeyPair, Ed25519PublicKey, Ed25519Signature};
use airplay2::crypto::hkdf::{derive_key, AirPlayKeys, HkdfSha512};
use airplay2::crypto::srp::{SrpClient, SrpParams, SrpServer};
use airplay2::crypto::x25519::{X25519KeyPair, X25519PublicKey};
use airplay2::crypto::CryptoError;

// --- AES ---

#[test]
fn test_aes_ctr_process() {
    let key = [0u8; 16];
    let iv = [0u8; 16];
    let data = b"hello world";

    let mut cipher1 = Aes128Ctr::new(&key, &iv).unwrap();
    let ciphertext = cipher1.process(data);
    assert_ne!(ciphertext, data);

    let mut cipher2 = Aes128Ctr::new(&key, &iv).unwrap();
    let plaintext = cipher2.process(&ciphertext);
    assert_eq!(plaintext, data);
}

#[test]
fn aes_test_aes_ctr_in_place() {
    let key = [0u8; 16];
    let iv = [0u8; 16];
    let data = b"hello world";
    let mut buf = data.to_vec();

    let mut cipher1 = Aes128Ctr::new(&key, &iv).unwrap();
    cipher1.apply_keystream(&mut buf);
    assert_ne!(buf, data);

    let mut cipher2 = Aes128Ctr::new(&key, &iv).unwrap();
    cipher2.apply_keystream(&mut buf);
    assert_eq!(buf, data);
}

#[test]
fn test_aes_ctr_seek() {
    let key = [0u8; 16];
    let iv = [0u8; 16];
    let data = b"hello world";

    let mut cipher1 = Aes128Ctr::new(&key, &iv).unwrap();
    let full_ciphertext = cipher1.process(data);

    let mut cipher2 = Aes128Ctr::new(&key, &iv).unwrap();
    let offset = (data.len() - 5) as u64;
    cipher2.seek(offset);

    let mut partial = full_ciphertext[full_ciphertext.len() - 5..].to_vec();
    cipher2.apply_keystream(&mut partial);
    assert_eq!(partial, &data[data.len() - 5..]);
}

#[test]
fn test_aes_gcm() {
    let key = [0u8; 16];
    let nonce = [0u8; 12];
    let data = b"hello world";

    let cipher = Aes128Gcm::new(&key).unwrap();
    let encrypted = cipher.encrypt(&nonce, data).unwrap();
    let decrypted = cipher.decrypt(&nonce, &encrypted).unwrap();
    assert_eq!(decrypted, data);
}

#[test]
fn test_aes_gcm_tamper() {
    let key = [0u8; 16];
    let nonce = [0u8; 12];
    let data = b"hello world";

    let cipher = Aes128Gcm::new(&key).unwrap();
    let mut encrypted = cipher.encrypt(&nonce, data).unwrap();
    encrypted[0] ^= 0xFF;
    assert!(cipher.decrypt(&nonce, &encrypted).is_err());
}

#[test]
fn test_aes_ctr_encrypt_decrypt() {
    let key = [0x42u8; 16];
    let iv = [0x00u8; 16];

    let mut cipher1 = Aes128Ctr::new(&key, &iv).unwrap();
    let mut cipher2 = Aes128Ctr::new(&key, &iv).unwrap();

    let plaintext = b"Hello, AirPlay audio!";
    let ciphertext = cipher1.process(plaintext);
    assert_ne!(&ciphertext, plaintext);

    let decrypted = cipher2.process(&ciphertext);
    assert_eq!(decrypted, plaintext);
}

#[test]
fn tests_test_aes_ctr_in_place() {
    let key = [0x42u8; 16];
    let iv = [0x00u8; 16];

    let mut cipher = Aes128Ctr::new(&key, &iv).unwrap();
    let mut data = b"test data".to_vec();
    let original = data.clone();

    cipher.apply_keystream(&mut data);
    assert_ne!(data, original);

    let mut cipher = Aes128Ctr::new(&key, &iv).unwrap();
    cipher.apply_keystream(&mut data);
    assert_eq!(data, original);
}

#[test]
fn test_aes_gcm_encrypt_decrypt() {
    let key = [0x42u8; 16];
    let nonce = [0x00u8; 12];

    let cipher = Aes128Gcm::new(&key).unwrap();
    let plaintext = b"Secret audio data";
    let ciphertext = cipher.encrypt(&nonce, plaintext).unwrap();
    let decrypted = cipher.decrypt(&nonce, &ciphertext).unwrap();
    assert_eq!(decrypted, plaintext);
}

#[test]
fn test_aes_gcm_tamper_detection() {
    let key = [0x42u8; 16];
    let nonce = [0x00u8; 12];

    let cipher = Aes128Gcm::new(&key).unwrap();
    let mut ciphertext = cipher.encrypt(&nonce, b"data").unwrap();
    ciphertext[0] ^= 0xFF;

    let result = cipher.decrypt(&nonce, &ciphertext);
    assert!(matches!(result, Err(CryptoError::DecryptionFailed(_))));
}

#[test]
fn aes_ctr_rejects_wrong_key_length() {
    let result = Aes128Ctr::new(&[0u8; 15], &[0u8; 16]);
    assert!(matches!(result, Err(CryptoError::InvalidKeyLength { expected: 16, actual: 15 })));
    let result = Aes128Ctr::new(&[0u8; 16], &[0u8; 17]);
    assert!(matches!(result, Err(CryptoError::InvalidKeyLength { expected: 16, actual: 17 })));
}

#[test]
fn aes_ctr_keystream_is_not_identity() {
    // A zero block under the zero key is the known AES-128 test vector.
    let mut cipher = Aes128Ctr::new(&[0u8; 16], &[0u8; 16]).unwrap();
    let out = cipher.process(&[0u8; 16]);
    assert_eq!(
        out,
        vec![
            0x66, 0xe9, 0x4b, 0xd4, 0xef, 0x8a, 0x2c, 0x3b, 0x88, 0x4c, 0xfa, 0x59, 0xca, 0x34,
            0x2b, 0x2e
        ]
    );
}

// --- ChaCha20-Poly1305 ---

#[test]
fn chacha_test_chacha_encrypt_decrypt() {
    let key = [0u8; 32];
    let nonce = Nonce::from_bytes(&[1u8; 12]).unwrap();
    let data = b"hello world";

    let cipher = ChaCha20Poly1305Cipher::new(&key).unwrap();
    let encrypted = cipher.encrypt(&nonce, data).unwrap();
    assert_eq!(encrypted.len(), data.len() + 16);

    let decrypted = cipher.decrypt(&nonce, &encrypted).unwrap();
    assert_eq!(decrypted, data);
}

#[test]
fn test_chacha_aad() {
    let key = [0u8; 32];
    let nonce = Nonce::from_bytes(&[1u8; 12]).unwrap();
    let data = b"hello world";
    let aad = b"header data";

    let cipher = ChaCha20Poly1305Cipher::new(&key).unwrap();
    let encrypted = cipher.encrypt_with_aad(&nonce, aad, data).unwrap();
    let decrypted = cipher.decrypt_with_aad(&nonce, aad, &encrypted).unwrap();
    assert_eq!(decrypted, data);
    assert!(cipher.decrypt_with_aad(&nonce, b"wrong", &encrypted).is_err());
}

#[test]
fn test_chacha_tamper() {
    let key = [0u8; 32];
    let nonce = Nonce::from_bytes(&[1u8; 12]).unwrap();
    let data = b"hello world";

    let cipher = ChaCha20Poly1305Cipher::new(&key).unwrap();
    let mut encrypted = cipher.encrypt(&nonce, data).unwrap();
    encrypted[0] ^= 0xFF;
    assert!(cipher.decrypt(&nonce, &encrypted).is_err());
}

#[test]
fn tests_test_chacha_encrypt_decrypt() {
    let key = [0x42u8; 32];
    let cipher = ChaCha20Poly1305Cipher::new(&key).unwrap();
    let nonce = Nonce::from_counter(1);
    let plaintext = b"Hello, AirPlay!";

    let ciphertext = cipher.encrypt(&nonce, plaintext).unwrap();
    let decrypted = cipher.decrypt(&nonce, &ciphertext).unwrap();
    assert_eq!(decrypted, plaintext);
}

#[test]
fn test_chacha_ciphertext_is_larger() {
    let key = [0x42u8; 32];
    let cipher = ChaCha20Poly1305Cipher::new(&key).unwrap();
    let nonce = Nonce::from_counter(0);
    let plaintext = b"test";

    let ciphertext = cipher.encrypt(&nonce, plaintext).unwrap();
    assert_eq!(ciphertext.len(), plaintext.len() + 16);
}

#[test]
fn test_chacha_decrypt_wrong_nonce_fails() {
    let key = [0x42u8; 32];
    let cipher = ChaCha20Poly1305Cipher::new(&key).unwrap();
    let nonce1 = Nonce::from_counter(1);
    let nonce2 = Nonce::from_counter(2);

    let ciphertext = cipher.encrypt(&nonce1, b"secret").unwrap();
    let result = cipher.decrypt(&nonce2, &ciphertext);
    assert!(matches!(result, Err(CryptoError::DecryptionFailed(_))));
}

#[test]
fn test_chacha_encrypt_with_aad() {
    let key = [0x42u8; 32];
    let cipher = ChaCha20Poly1305Cipher::new(&key).unwrap();
    let nonce = Nonce::from_counter(1);
    let aad = b"header";
    let plaintext = b"body";

    let ciphertext = cipher.encrypt_with_aad(&nonce, aad, plaintext).unwrap();
    let decrypted = cipher.decrypt_with_aad(&nonce, aad, &ciphertext).unwrap();
    assert_eq!(decrypted, plaintext);
}

#[test]
fn test_chacha_decrypt_wrong_aad_fails() {
    let key = [0x42u8; 32];
    let cipher = ChaCha20Poly1305Cipher::new(&key).unwrap();
    let nonce = Nonce::from_counter(1);
    let ciphertext = cipher.encrypt_with_aad(&nonce, b"aad1", b"data").unwrap();

    let result = cipher.decrypt_with_aad(&nonce, b"aad2", &ciphertext);
    assert!(matches!(result, Err(CryptoError::DecryptionFailed(_))));
}

#[test]
fn chacha_counter_nonce_layout() {
    let nonce = Nonce::from_counter(0x0102_0304_0506_0708);
    assert_eq!(nonce.as_bytes(), &[0, 0, 0, 0, 8, 7, 6, 5, 4, 3, 2, 1]);
    assert!(matches!(
        Nonce::from_bytes(&[0u8; 11]),
        Err(CryptoError::InvalidKeyLength { expected: 12, actual: 11 })
    ));
    assert!(matches!(
        ChaCha20Poly1305Cipher::new(&[0u8; 31]),
        Err(CryptoError::InvalidKeyLength { expected: 32, actual: 31 })
    ));
}

// --- Ed25519 ---

#[test]
fn test_ed25519_keypair_generation() {
    let kp = Ed25519KeyPair::generate();
    let pk = kp.public_key();
    assert_eq!(pk.as_bytes().len(), 32);
}

#[test]
fn test_ed25519_keypair_from_bytes() {
    let kp1 = Ed25519KeyPair::generate();
    let secret = kp1.secret_bytes();
    let kp2 = Ed25519KeyPair::from_bytes(&secret).unwrap();
    assert_eq!(kp1.public_key().as_bytes(), kp2.public_key().as_bytes());
}

#[test]
fn test_ed25519_sign_verify() {
    let kp = Ed25519KeyPair::generate();
    let message = b"test message";
    let signature = kp.sign(message);
    kp.public_key().verify(message, &signature).unwrap();
}

#[test]
fn test_ed25519_verify_wrong_message() {
    let kp = Ed25519KeyPair::generate();
    let signature = kp.sign(b"original message");
    let result = kp.public_key().verify(b"different message", &signature);
    assert!(matches!(result, Err(CryptoError::InvalidSignature)));
}

#[test]
fn test_ed25519_signature_roundtrip() {
    let kp = Ed25519KeyPair::generate();
    let signature = kp.sign(b"message");
    let bytes = signature.to_bytes();
    let recovered = Ed25519Signature::from_bytes(&bytes).unwrap();
    kp.public_key().verify(b"message", &recovered).unwrap();
}

#[test]
fn ed25519_rfc8032_test_vector() {
    // RFC 8032, section 7.1, test 1 (empty message).
    let secret = [
        0x9d, 0x61, 0xb1, 0x9d, 0xef, 0xfd, 0x5a, 0x60, 0xba, 0x84, 0x4a, 0xf4, 0x92, 0xec, 0x2c,
        0xc4, 0x44, 0x49, 0xc5, 0x69, 0x7b, 0x32, 0x69, 0x19, 0x70, 0x3b, 0xac, 0x03, 0x1c, 0xae,
        0x7f, 0x60,
    ];
    let public = [
        0xd7, 0x5a, 0x98, 0x01, 0x82, 0xb1, 0x0a, 0xb7, 0xd5, 0x4b, 0xfe, 0xd3, 0xc9, 0x64, 0x07,
        0x3a, 0x0e, 0xe1, 0x72, 0xf3, 0xda, 0xa6, 0x23, 0x25, 0xaf, 0x02, 0x1a, 0x68, 0xf7, 0x07,
        0x51, 0x1a,
    ];
    let kp = Ed25519KeyPair::from_bytes(&secret).unwrap();
    assert_eq!(kp.public_key().as_bytes(), &public);
    let sig = kp.sign(b"").to_bytes();
    assert_eq!(&sig[..4], &[0xe5, 0x56, 0x43, 0x00]);
    assert_eq!(&sig[60..], &[0x8e, 0x7a, 0x10, 0x0b]);
}

#[test]
fn ed25519_rejects_malformed_inputs() {
    assert!(matches!(Ed25519Signature::from_bytes(&[0u8; 63]), Err(CryptoError::InvalidSignature)));
    assert!(matches!(
        Ed25519PublicKey::from_bytes(&[0u8; 31]),
        Err(CryptoError::InvalidKeyLength { expected: 32, actual: 31 })
    ));
    assert!(matches!(
        Ed25519KeyPair::from_bytes(&[0u8; 33]),
        Err(CryptoError::InvalidKeyLength { expected: 32, actual: 33 })
    ));
}

// --- HKDF ---

#[test]
fn hkdf_test_hkdf_derive() {
    let ikm = b"input key material";
    let salt = b"salt";
    let info = b"info";
    let key = derive_key(Some(&salt[..]), ikm, info, 32).unwrap();
    assert_eq!(key.len(), 32);
}

#[test]
fn hkdf_test_hkdf_deterministic() {
    let ikm = b"test";
    let key1 = derive_key(None, ikm, b"info", 32).unwrap();
    let key2 = derive_key(None, ikm, b"info", 32).unwrap();
    assert_eq!(key1, key2);
}

#[test]
fn hkdf_test_hkdf_different_info() {
    let ikm = b"test";
    let key1 = derive_key(None, ikm, b"info1", 32).unwrap();
    let key2 = derive_key(None, ikm, b"info2", 32).unwrap();
    assert_ne!(key1, key2);
}

#[test]
fn hkdf_test_airplay_keys() {
    let shared_secret = [0x42u8; 32];
    let salt = [0x00u8; 32];
    let keys = AirPlayKeys::derive(&shared_secret, &salt).unwrap();
    assert_eq!(keys.output_key.len(), 32);
    assert_eq!(keys.input_key.len(), 32);
    assert_ne!(keys.output_key, keys.input_key);
}

#[test]
fn tests_test_hkdf_derive() {
    let ikm = b"input key material";
    let salt = b"salt";
    let info = b"info";
    let key = derive_key(Some(&salt[..]), ikm, info, 32).unwrap();
    assert_eq!(key.len(), 32);
}

#[test]
fn tests_test_hkdf_deterministic() {
    let ikm = b"test";
    let key1 = derive_key(None, ikm, b"info", 32).unwrap();
    let key2 = derive_key(None, ikm, b"info", 32).unwrap();
    assert_eq!(key1, key2);
}

#[test]
fn tests_test_hkdf_different_info() {
    let ikm = b"test";
    let key1 = derive_key(None, ikm, b"info1", 32).unwrap();
    let key2 = derive_key(None, ikm, b"info2", 32).unwrap();
    assert_ne!(key1, key2);
}

#[test]
fn tests_test_airplay_keys() {
    let shared_secret = [0x42u8; 32];
    let salt = [0x00u8; 32];
    let keys = AirPlayKeys::derive(&shared_secret, &salt).unwrap();
    assert_eq!(keys.output_key.len(), 32);
    assert_eq!(keys.input_key.len(), 32);
    assert_ne!(keys.output_key, keys.input_key);
}

#[test]
fn hkdf_rfc5869_style_values() {
    // The one-shot derivation equals expanding a kept instance.
    let hkdf = HkdfSha512::new(Some(&b"salt"[..]), b"ikm");
    let a = hkdf.expand(b"info", 42).unwrap();
    let b = derive_key(Some(&b"salt"[..]), b"ikm", b"info", 42).unwrap();
    assert_eq!(a, b);
    let fixed: [u8; 42] = hkdf.expand_fixed::<42>(b"info").unwrap();
    assert_eq!(&fixed[..], &a[..]);
    // A shorter output is a prefix of a longer one.
    let short = hkdf.expand(b"info", 10).unwrap();
    assert_eq!(&short[..], &a[..10]);
}

#[test]
fn hkdf_output_limit() {
    assert!(derive_key(None, b"k", b"i", 255 * 64).is_ok());
    assert!(matches!(
        derive_key(None, b"k", b"i", 255 * 64 + 1),
        Err(CryptoError::KeyDerivationFailed(_))
    ));
}

// --- SRP ---

#[test]
fn tests_test_srp_client_creation() {
    let client = SrpClient::new().unwrap();
    assert!(!client.public_key().is_empty());
}

#[test]
fn srp_test_srp_client_creation() {
    let client = SrpClient::with_params(&SrpParams::rfc5054_3072()).unwrap();
    assert!(!client.public_key().is_empty());
}

#[test]
fn tests_test_srp_handshake() {
    let client = SrpClient::new().unwrap();
    let username = b"Pair-Setup";
    let password = b"1234";
    let salt = b"randomsalt";
    let group = SrpParams::rfc5054_3072();

    let verifier = SrpServer::compute_verifier(username, password, salt, &group).unwrap();
    let mut server = SrpServer::new(&verifier, &group).unwrap();
    server.set_context(username, salt);

    let client_verifier = client
        .process_challenge(username, password, salt, server.public_key())
        .expect("Client failed to process challenge");
    let client_m1 = client_verifier.client_proof();

    let (server_key, server_m2) = server
        .verify_client(client.public_key(), client_m1)
        .expect("Server failed to verify client");

    let client_key = client_verifier
        .verify_server(&server_m2)
        .expect("Client failed to verify server");
    assert_eq!(client_key.as_bytes(), server_key.as_bytes());
}

#[test]
fn tests_test_srp_invalid_password_fails() {
    let client = SrpClient::new().unwrap();
    let username = b"Pair-Setup";
    let password = b"correct";
    let salt = b"salt";
    let group = SrpParams::rfc5054_3072();

    let verifier = SrpServer::compute_verifier(username, b"wrong", salt, &group).unwrap();
    let mut server = SrpServer::new(&verifier, &group).unwrap();
    server.set_context(username, salt);

    let client_verifier = client
        .process_challenge(username, password, salt, server.public_key())
        .unwrap();
    let client_m1 = client_verifier.client_proof();

    assert!(server.verify_client(client.public_key(), client_m1).is_err());
}

#[test]
fn srp_test_srp_handshake() {
    let username = b"Pair-Setup";
    let password = b"1234";
    let salt = b"randomsalt";
    let params = SrpParams::rfc5054_3072();

    let verifier = SrpServer::compute_verifier(username, password, salt, &params).unwrap();
    let mut server = SrpServer::new(&verifier, &params).unwrap();
    server.set_context(username, salt);
    let server_b_pub = server.public_key().to_vec();

    let client = SrpClient::with_params(&params).unwrap();
    let client_a_pub = client.public_key().to_vec();

    let client_verifier = client
        .process_challenge(username, password, salt, &server_b_pub)
        .expect("Client failed to process challenge");
    let client_proof_m1 = client_verifier.client_proof();

    let (server_key, server_proof_m2) = server
        .verify_client(&client_a_pub, client_proof_m1)
        .expect("Server failed to verify client");

    let client_key = client_verifier
        .verify_server(&server_proof_m2)
        .expect("Client failed to verify server");
    assert_eq!(client_key.as_bytes(), server_key.as_bytes());
}

#[test]
fn srp_test_srp_invalid_password_fails() {
    let username = b"Pair-Setup";
    let password_correct = b"correct";
    let password_wrong = b"wrong";
    let salt = b"salt";
    let params = SrpParams::rfc5054_3072();

    let verifier = SrpServer::compute_verifier(username, password_correct, salt, &params).unwrap();
    let mut server = SrpServer::new(&verifier, &params).unwrap();
    server.set_context(username, salt);
    let server_b_pub = server.public_key().to_vec();

    let client = SrpClient::with_params(&params).unwrap();
    let client_verifier = client
        .process_challenge(username, password_wrong, salt, &server_b_pub)
        .unwrap();
    let client_proof_m1 = client_verifier.client_proof();

    let result = server.verify_client(client.public_key(), client_proof_m1);
    assert!(result.is_err(), "Server should reject invalid password");
}

#[test]
fn srp_rejects_zero_server_public() {
    let client = SrpClient::new().unwrap();
    let result = client.process_challenge(b"u", b"p", b"s", &[0u8; 384]);
    assert!(matches!(result, Err(CryptoError::SrpError(ref m)) if m == "Invalid server public key"));
}

#[test]
fn srp_rejects_long_multiple_of_n() {
    // N * 256: more than 384 bytes, and a multiple of N.
    let client = SrpClient::new().unwrap();
    let group = SrpParams::rfc5054_3072();
    let mut b = group.to_params().unwrap().n;
    b.push(0);
    let result = client.process_challenge(b"u", b"p", b"s", &b);
    assert!(matches!(result, Err(CryptoError::SrpError(ref m)) if m == "Invalid server public key"));

    let verifier = SrpServer::compute_verifier(b"Pair-Setup", b"1234", b"salt", &group).unwrap();
    let server = SrpServer::new(&verifier, &group).unwrap();
    let result = server.verify_client(&b, &[0u8; 64]);
    assert!(matches!(result, Err(CryptoError::SrpError(ref m)) if m == "Invalid client public key"));
}

#[test]
fn srp_server_proof_mismatch_is_refused() {
    let client = SrpClient::new().unwrap();
    let group = SrpParams::rfc5054_3072();
    let verifier = SrpServer::compute_verifier(b"Pair-Setup", b"1234", b"salt", &group).unwrap();
    let server = SrpServer::new(&verifier, &group).unwrap();
    let v = client
        .process_challenge(b"Pair-Setup", b"1234", b"salt", server.public_key())
        .unwrap();
    let result = v.verify_server(&[0u8; 64]);
    assert!(matches!(result, Err(CryptoError::SrpError(ref m)) if m == "Server proof verification failed"));
}

// --- X25519 ---

#[test]
fn test_key_exchange() {
    let alice = X25519KeyPair::generate();
    let bob = X25519KeyPair::generate();
    let alice_shared = alice.diffie_hellman(&bob.public_key());
    let bob_shared = bob.diffie_hellman(&alice.public_key());
    assert_eq!(alice_shared.as_bytes(), bob_shared.as_bytes());
}

#[test]
fn test_keypair_roundtrip() {
    let kp1 = X25519KeyPair::generate();
    let secret = kp1.secret_bytes();
    let kp2 = X25519KeyPair::from_bytes(&secret).unwrap();
    assert_eq!(kp1.public_key().as_bytes(), kp2.public_key().as_bytes());
}

#[test]
fn test_public_key_from_bytes() {
    let kp = X25519KeyPair::generate();
    let pk_bytes = kp.public_key().as_bytes().to_vec();
    let pk = X25519PublicKey::from_bytes(&pk_bytes).unwrap();
    assert_eq!(pk.as_bytes(), kp.public_key().as_bytes());
}

#[test]
fn test_x25519_key_exchange() {
    let alice = X25519KeyPair::generate();
    let bob = X25519KeyPair::generate();
    let alice_shared = alice.diffie_hellman(&bob.public_key());
    let bob_shared = bob.diffie_hellman(&alice.public_key());
    assert_eq!(alice_shared.as_bytes(), bob_shared.as_bytes());
}

#[test]
fn test_x25519_keypair_roundtrip() {
    let kp1 = X25519KeyPair::generate();
    let secret = kp1.secret_bytes();
    let kp2 = X25519KeyPair::from_bytes(&secret).unwrap();
    assert_eq!(kp1.public_key().as_bytes(), kp2.public_key().as_bytes());
}

#[test]
fn test_x25519_public_key_from_bytes() {
    let kp = X25519KeyPair::generate();
    let pk_bytes = kp.public_key().as_bytes().to_vec();
    let pk = X25519PublicKey::from_bytes(&pk_bytes).unwrap();
    assert_eq!(pk.as_bytes(), kp.public_key().as_bytes());
}

#[test]
fn x25519_rfc7748_test_vector() {
    // RFC 7748, section 6.1: Alice's key pair and the shared secret with Bob.
    let alice_secret = [
        0x77, 0x07, 0x6d, 0x0a, 0x73, 0x18, 0xa5, 0x7d, 0x3c, 0x16, 0xc1, 0x72, 0x51, 0xb2, 0x66,
        0x45, 0xdf, 0x4c, 0x2f, 0x87, 0xeb, 0xc0, 0x99, 0x2a, 0xb1, 0x77, 0xfb, 0xa5, 0x1d, 0xb9,
        0x2c, 0x2a,
    ];
    let bob_public = [
        0xde, 0x9e, 0xdb, 0x7d, 0x7b, 0x7d, 0xc1, 0xb4, 0xd3, 0x5b, 0x61, 0xc2, 0xec, 0xe4, 0x35,
        0x37, 0x3f, 0x83, 0x43, 0xc8, 0x5b, 0x78, 0x67, 0x4d, 0xad, 0xfc, 0x7e, 0x14, 0x6f, 0x88,
        0x2b, 0x4f,
    ];
    let alice = X25519KeyPair::from_bytes(&alice_secret).unwrap();
    assert_eq!(
        &alice.public_key().as_bytes()[..4],
        &[0x85, 0x20, 0xf0, 0x09]
    );
    let shared = alice.diffie_hellman(&X25519PublicKey::from_bytes(&bob_public).unwrap());
    assert_eq!(&shared.as_bytes()[..4], &[0x4a, 0x5d, 0x9d, 0x5b]);
    assert!(matches!(
        X25519PublicKey::from_bytes(&[0u8; 31]),
        Err(CryptoError::InvalidKeyLength { expected: 32, actual: 31 })
    ));
}
