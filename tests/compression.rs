use yeet::compression::{compress, decompress, CompressionAlgorithm};
use yeet::model::DecodeError;

fn sample() -> Vec<u8> {
    (0..2000u32).map(|i| (i % 7 * 31) as u8).collect()
}

#[test]
fn decompress_inverts_compress() {
    for alg in [CompressionAlgorithm::Uncompressed, CompressionAlgorithm::Zlib, CompressionAlgorithm::Brotli, CompressionAlgorithm::Zstd] {
        for data in [Vec::new(), vec![42u8], sample()] {
            let packed = compress(&data, alg);
            assert_eq!(decompress(&packed, alg).unwrap(), data);
        }
    }
}

#[test]
fn real_algorithms_change_the_bytes() {
    let data = sample();
    for alg in [CompressionAlgorithm::Zlib, CompressionAlgorithm::Brotli, CompressionAlgorithm::Zstd] {
        let packed = compress(&data, alg);
        assert_ne!(packed, data);
        assert!(packed.len() < data.len());
    }
    assert_eq!(compress(&data, CompressionAlgorithm::Uncompressed), data);
}

#[test]
fn no_fallback_to_another_algorithm() {
    let data = sample();
    let zlib = compress(&data, CompressionAlgorithm::Zlib);
    assert_eq!(decompress(&zlib, CompressionAlgorithm::Zstd).unwrap_err(), DecodeError::CorruptPayload);
    let zstd = compress(&data, CompressionAlgorithm::Zstd);
    assert_eq!(decompress(&zstd, CompressionAlgorithm::Zlib).unwrap_err(), DecodeError::CorruptPayload);
    assert_eq!(decompress(&[1, 2, 3, 4, 5], CompressionAlgorithm::Zlib).unwrap_err(), DecodeError::CorruptPayload);
}

#[test]
fn algorithm_codes() {
    assert_eq!(CompressionAlgorithm::from_bits(0b1111_1100), CompressionAlgorithm::Uncompressed);
    assert_eq!(CompressionAlgorithm::from_bits(1), CompressionAlgorithm::Zlib);
    assert_eq!(CompressionAlgorithm::from_bits(6), CompressionAlgorithm::Brotli);
    assert_eq!(CompressionAlgorithm::from_bits(3), CompressionAlgorithm::Zstd);
    assert_eq!(CompressionAlgorithm::Brotli.code(), 2);
}
