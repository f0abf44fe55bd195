//! Bit-packed encoding, compression, and the sampling routines.

use ml_kem::MlKemError;
use ml_kem::Ring;

#[test]
fn encode_decode_round_trip() {
    for d in 1..=12usize {
        let limit: u32 = if d == 12 { 3329 } else { 1u32 << d };
        let mut coefficients: Vec<u16> = Vec::new();
        for i in 0..256u32 {
            coefficients.push(((i * 31 + 7) % limit) as u16);
        }
        let ring = Ring::new(coefficients.clone(), false);
        let bytes = ring.encode(d);
        assert_eq!(bytes.len(), 32 * d);
        let back = Ring::decode(&bytes, d, false).unwrap();
        assert_eq!(back.coefficients, coefficients);
    }
}

#[test]
fn decode_rejects_wrong_length() {
    let bytes = vec![0u8; 33];
    assert_eq!(Ring::decode(&bytes, 1, false).unwrap_err(), MlKemError::InvalidLength);
}

#[test]
fn decode_at_twelve_reduces_modulo_q() {
    // All bits set: every 12-bit group holds 4095, which decodes to
    // 4095 mod 3329 = 766.
    let bytes = vec![0xffu8; 32 * 12];
    let ring = Ring::decode(&bytes, 12, false).unwrap();
    assert!(ring.coefficients.iter().all(|&c| c == 766));
}

#[test]
fn compress_decompress_values() {
    // Compress_1 of a coefficient rounds to the nearest of 0 and q/2:
    // values close to 0 or q map to 0, values close to q/2 map to 1.
    let mut coefficients = vec![0u16; 256];
    coefficients[0] = 0;
    coefficients[1] = 1664; // close to q/2
    coefficients[2] = 3328; // close to q, rounds to 2 mod 2 = 0
    coefficients[3] = 833; // just past q/4, rounds to 1
    let ring = Ring::new(coefficients, false);
    let compressed = ring.compress(1);
    assert_eq!(compressed.coefficients[0], 0);
    assert_eq!(compressed.coefficients[1], 1);
    assert_eq!(compressed.coefficients[2], 0);
    assert_eq!(compressed.coefficients[3], 1);

    // Decompress_1 sends 0 to 0 and 1 to round(q/2) = 1665.
    let mut bits = vec![0u16; 256];
    bits[1] = 1;
    let lifted = Ring::new(bits, false).decompress(1);
    assert_eq!(lifted.coefficients[0], 0);
    assert_eq!(lifted.coefficients[1], 1665);
}

#[test]
fn compress_round_trips_through_decompress() {
    // Compressing a decompressed value is lossless for every width.
    for d in 1..=11u8 {
        let limit: u32 = 1u32 << d;
        let mut coefficients: Vec<u16> = Vec::new();
        for i in 0..256u32 {
            coefficients.push(((i * 13 + 5) % limit) as u16);
        }
        let ring = Ring::new(coefficients.clone(), false);
        let back = ring.decompress(d).compress(d);
        assert_eq!(back.coefficients, coefficients);
    }
}

#[test]
fn cbd_rejects_wrong_length() {
    let bytes = vec![0u8; 64];
    assert_eq!(Ring::cbd(&bytes, 2, false).unwrap_err(), MlKemError::InvalidLength);
}

#[test]
fn cbd_of_zero_bytes_is_zero() {
    for eta in 2..=3u8 {
        let bytes = vec![0u8; 64 * eta as usize];
        let ring = Ring::cbd(&bytes, eta, false).unwrap();
        assert!(ring.coefficients.iter().all(|&c| c == 0));
    }
}

#[test]
fn cbd_counts_bit_difference() {
    // Every byte 0x03: for eta = 2 the even coefficients read the bit
    // halves 11 and 00, giving popcount difference 2; the odd ones read
    // only zero bits. Every byte 0x0c flips the two halves, so the even
    // coefficients come out as -2, normalized to q - 2.
    let bytes = vec![0x03u8; 128];
    let ring = Ring::cbd(&bytes, 2, false).unwrap();
    for i in 0..256 {
        if i % 2 == 0 {
            assert_eq!(ring.coefficients[i], 2);
        } else {
            assert_eq!(ring.coefficients[i], 0);
        }
    }
    let bytes = vec![0x0cu8; 128];
    let ring = Ring::cbd(&bytes, 2, false).unwrap();
    for i in 0..256 {
        if i % 2 == 0 {
            assert_eq!(ring.coefficients[i], 3327);
        } else {
            assert_eq!(ring.coefficients[i], 0);
        }
    }
}

#[test]
fn ntt_sample_accepts_small_candidates() {
    // A stream of zero bytes offers the candidates 0 and 0 per triple,
    // both below q, so 384 bytes fill all 256 coefficients with zeros.
    let bytes = vec![0u8; 384];
    let ring = Ring::ntt_sample(&bytes).unwrap();
    assert!(ring.is_ntt);
    assert!(ring.coefficients.iter().all(|&c| c == 0));
}

#[test]
fn ntt_sample_rejects_large_candidates() {
    // A stream of 0xff bytes offers only the candidate 4095 >= q, so no
    // coefficient is ever accepted.
    let bytes = vec![0xffu8; 840];
    assert!(Ring::ntt_sample(&bytes).is_none());
}

#[test]
fn ntt_sample_underfull_stream() {
    // Too few bytes to fill 256 coefficients.
    let bytes = vec![0u8; 100];
    assert!(Ring::ntt_sample(&bytes).is_none());
}
