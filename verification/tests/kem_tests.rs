//! The three KEM operations: self-consistency across all parameter sets,
//! implicit rejection, the embedded hashes, and the failure cases.

use sha3::digest::ExtendableOutput;
use sha3::digest::Update;
use sha3::digest::XofReader;
use sha3::Digest;

use ml_kem::MLKem;
use ml_kem::MlKemError;
use ml_kem::Type;

fn seed(byte: u8) -> Vec<u8> {
    (0..32u8).map(|i| i.wrapping_mul(3).wrapping_add(byte)).collect()
}

fn params() -> Vec<(Type, usize, usize, usize, usize)> {
    // (variant, k, ek bytes, dk bytes, ciphertext bytes)
    vec![
        (Type::MlKem512, 2, 800, 1632, 768),
        (Type::MlKem768, 3, 1184, 2400, 1088),
        (Type::MlKem1024, 4, 1568, 3168, 1568),
    ]
}

#[test]
fn new_sets_parameters() {
    let kem = MLKem::new(Type::MlKem512);
    assert_eq!((kem.k, kem.eta_1, kem.eta_2, kem.du, kem.dv), (2, 3, 2, 10, 4));
    let kem = MLKem::new(Type::MlKem768);
    assert_eq!((kem.k, kem.eta_1, kem.eta_2, kem.du, kem.dv), (3, 2, 2, 10, 4));
    let kem = MLKem::new(Type::MlKem1024);
    assert_eq!((kem.k, kem.eta_1, kem.eta_2, kem.du, kem.dv), (4, 2, 2, 11, 5));
}

#[test]
fn keygen_encaps_decaps_round_trip() {
    for (variant, _k, ek_len, dk_len, c_len) in params() {
        let kem = MLKem::new(variant);
        let d = seed(1);
        let z = seed(2);
        let m = seed(3);
        let (ek, dk) = kem._keygen_internal(&d, &z).unwrap();
        assert_eq!(ek.len(), ek_len);
        assert_eq!(dk.len(), dk_len);
        let (key, c) = kem._encaps_internal(&ek, &m).unwrap();
        assert_eq!(key.len(), 32);
        assert_eq!(c.len(), c_len);
        let recovered = kem.decaps(&dk, &c).unwrap();
        assert_eq!(recovered, key);
    }
}

#[test]
fn keygen_internal_is_deterministic() {
    let kem = MLKem::new(Type::MlKem768);
    let d = seed(7);
    let z = seed(8);
    let (ek1, dk1) = kem._keygen_internal(&d, &z).unwrap();
    let (ek2, dk2) = kem._keygen_internal(&d, &z).unwrap();
    assert_eq!(ek1, ek2);
    assert_eq!(dk1, dk2);
}

#[test]
fn random_keygen_and_encaps() {
    for (variant, _k, ek_len, dk_len, c_len) in params() {
        let kem = MLKem::new(variant);
        let (ek, dk) = kem.keygen().unwrap();
        assert_eq!(ek.len(), ek_len);
        assert_eq!(dk.len(), dk_len);
        let (key, c) = kem.encaps(&ek).unwrap();
        assert_eq!(key.len(), 32);
        assert_eq!(c.len(), c_len);
        assert_eq!(kem.decaps(&dk, &c).unwrap(), key);
    }
}

#[test]
fn decapsulation_key_embeds_hash_of_encapsulation_key() {
    let kem = MLKem::new(Type::MlKem512);
    let (ek, dk) = kem._keygen_internal(&seed(4), &seed(5)).unwrap();
    let k = 2usize;
    assert_eq!(&dk[384 * k..768 * k + 32], &ek[..]);
    let mut hasher = sha3::Sha3_256::new();
    Update::update(&mut hasher, &ek);
    let expected: Vec<u8> = hasher.finalize().to_vec();
    assert_eq!(&dk[768 * k + 32..768 * k + 64], &expected[..]);
    assert_eq!(&dk[768 * k + 64..], &seed(5)[..]);
}

#[test]
fn implicit_rejection_returns_j_of_z_and_ciphertext() {
    let kem = MLKem::new(Type::MlKem768);
    let z = seed(11);
    let (ek, dk) = kem._keygen_internal(&seed(10), &z).unwrap();
    let m = seed(12);
    let (key, c) = kem._encaps_internal(&ek, &m).unwrap();

    let mut tampered = c.clone();
    tampered[5] ^= 0x40;
    let rejected = kem.decaps(&dk, &tampered).unwrap();
    assert_eq!(rejected.len(), 32);
    assert_ne!(rejected, key);

    // The implicit-rejection key is exactly J(z || c~), 32 bytes of
    // SHAKE-256 output.
    let mut hasher = sha3::Shake256::default();
    hasher.update(&z);
    hasher.update(&tampered);
    let mut reader = hasher.finalize_xof();
    let mut expected = [0u8; 32];
    reader.read(&mut expected);
    assert_eq!(rejected, expected.to_vec());

    // Rejection is deterministic.
    assert_eq!(kem.decaps(&dk, &tampered).unwrap(), rejected);
}

#[test]
fn encrypt_rejects_modulus_check_failure() {
    // An encapsulation key whose first coefficient is q = 3329 decodes
    // and re-encodes to 0, so encryption must refuse it.
    let kem = MLKem::new(Type::MlKem512);
    let (mut ek, _dk) = kem._keygen_internal(&seed(20), &seed(21)).unwrap();
    ek[0] = 0x01;
    ek[1] = (ek[1] & 0xf0) | 0x0d;
    let m = seed(22);
    let r = seed(23);
    assert_eq!(kem._k_pke_encrypt(&ek, &m, &r).unwrap_err(), MlKemError::ModulusCheckFailed);
    assert_eq!(kem._encaps_internal(&ek, &m).unwrap_err(), MlKemError::ModulusCheckFailed);
}

#[test]
fn encrypt_rejects_wrong_key_length() {
    let kem = MLKem::new(Type::MlKem512);
    let ek = vec![0u8; 100];
    assert_eq!(
        kem._k_pke_encrypt(&ek, &seed(1), &seed(2)).unwrap_err(),
        MlKemError::InvalidLength
    );
}

#[test]
fn decaps_rejects_malformed_inputs() {
    let kem = MLKem::new(Type::MlKem512);
    let (ek, dk) = kem._keygen_internal(&seed(30), &seed(31)).unwrap();
    let (_key, c) = kem._encaps_internal(&ek, &seed(32)).unwrap();

    let short_c = vec![0u8; 10];
    assert_eq!(kem.decaps(&dk, &short_c).unwrap_err(), MlKemError::CiphertextLength);

    let short_dk = vec![0u8; 100];
    assert_eq!(kem.decaps(&short_dk, &c).unwrap_err(), MlKemError::DecapsKeyLength);

    let mut bad_hash = dk.clone();
    let h_offset = 768 * 2 + 32;
    bad_hash[h_offset] ^= 1;
    assert_eq!(kem.decaps(&bad_hash, &c).unwrap_err(), MlKemError::HashCheckFailed);
}

#[test]
fn decrypt_recovers_the_message() {
    // K-PKE itself round-trips: decrypting an encryption of m under the
    // matching keys yields m.
    for (variant, _k, _ek, _dk, _c) in params() {
        let kem = MLKem::new(variant);
        let (ek_pke, dk_pke) = kem._k_pke_keygen(&seed(40)).unwrap();
        let m = seed(41);
        let r = seed(42);
        let c = kem._k_pke_encrypt(&ek_pke, &m, &r).unwrap();
        let m_prime = kem._k_pke_decrypt(&dk_pke, &c);
        assert_eq!(m_prime, m);
    }
}
