use pvkr::manifest::Manifest;
use pvkr::split::{check_output_dir, split, split_chunks};
use pvkr::weld::{weld, WeldFailure};
use pvkr::error::PvkrError;

fn sample_file(len: usize) -> Vec<u8> {
    (0..len).map(|i| (i % 251) as u8).collect()
}

#[test]
fn round_trip_250_bytes_chunk_100() {
    let file = sample_file(250);
    let package = split(&file, b"pkg".to_vec(), 100);
    assert_eq!(package.chunks.len(), 3);
    assert_eq!(package.chunks[0].len(), 100);
    assert_eq!(package.chunks[1].len(), 100);
    assert_eq!(package.chunks[2].len(), 50);
    assert_eq!(package.manifest.chunk_digests.len(), 3);
    let out = weld(&package.manifest, &package.chunks);
    assert_eq!(out, Ok(file));
}

#[test]
fn round_trip_through_encoded_manifest() {
    let file = sample_file(250);
    let package = split(&file, b"pkg".to_vec(), 100);
    let encoded = package.manifest.encode();
    let decoded = match Manifest::decode(encoded) {
        Ok(m) => m,
        Err(_) => panic!("a freshly encoded manifest must decode"),
    };
    assert_eq!(decoded.base_name, b"pkg".to_vec());
    assert_eq!(decoded.chunk_digests.len(), 3);
    let out = weld(&decoded, &package.chunks);
    assert_eq!(out, Ok(file));
}

#[test]
fn empty_file_gives_one_empty_chunk() {
    let file: Vec<u8> = Vec::new();
    let package = split(&file, b"pkg".to_vec(), 100);
    assert_eq!(package.chunks.len(), 1);
    assert_eq!(package.chunks[0].len(), 0);
    assert_eq!(package.manifest.chunk_digests.len(), 1);
    let out = weld(&package.manifest, &package.chunks);
    assert_eq!(out, Ok(Vec::new()));
}

#[test]
fn exact_multiple_has_no_trailing_empty_chunk() {
    let file = sample_file(200);
    let package = split(&file, b"pkg".to_vec(), 100);
    assert_eq!(package.chunks.len(), 2);
    assert_eq!(package.chunks[0].len(), 100);
    assert_eq!(package.chunks[1].len(), 100);
    let out = weld(&package.manifest, &package.chunks);
    assert_eq!(out, Ok(file));
}

#[test]
fn file_smaller_than_chunk_is_kept_whole() {
    let file = sample_file(10);
    let package = split(&file, b"pkg".to_vec(), 100);
    assert_eq!(package.chunks.len(), 1);
    assert_eq!(package.chunks[0], file);
    let out = weld(&package.manifest, &package.chunks);
    assert_eq!(out, Ok(file));
}

#[test]
fn chunk_counts_round_up() {
    for (len, chunk_size, expected) in [
        (0usize, 100usize, 1usize),
        (1, 100, 1),
        (100, 100, 1),
        (101, 100, 2),
        (250, 100, 3),
        (7, 1, 7),
    ] {
        let file = sample_file(len);
        let chunks = split_chunks(&file, chunk_size);
        assert_eq!(chunks.len(), expected);
        let total: usize = chunks.iter().map(|c| c.len()).sum();
        assert_eq!(total, len);
    }
}

#[test]
fn corrupting_one_chunk_byte_names_that_chunk() {
    let file = sample_file(250);
    let package = split(&file, b"pkg".to_vec(), 100);
    let mut chunks = package.chunks.clone();
    chunks[1][5] ^= 0xff;
    let out = weld(&package.manifest, &chunks);
    assert_eq!(out, Err(WeldFailure::ChunkMismatch(1)));
}

#[test]
fn corrupting_last_chunk_names_it_too() {
    let file = sample_file(250);
    let package = split(&file, b"pkg".to_vec(), 100);
    let mut chunks = package.chunks.clone();
    chunks[2][49] = chunks[2][49].wrapping_add(1);
    let out = weld(&package.manifest, &chunks);
    assert_eq!(out, Err(WeldFailure::ChunkMismatch(2)));
}

#[test]
fn the_first_corrupted_chunk_is_the_one_named() {
    let file = sample_file(250);
    let package = split(&file, b"pkg".to_vec(), 100);
    let mut chunks = package.chunks.clone();
    chunks[0][0] ^= 0xff;
    chunks[2][0] ^= 0xff;
    let out = weld(&package.manifest, &chunks);
    assert_eq!(out, Err(WeldFailure::ChunkMismatch(0)));
}

#[test]
fn tampered_whole_file_digest_fails_final_check() {
    let file = sample_file(250);
    let package = split(&file, b"pkg".to_vec(), 100);
    let mut encoded = package.manifest.encode();
    encoded[0] ^= 0xff;
    let tampered = match Manifest::decode(encoded) {
        Ok(m) => m,
        Err(_) => panic!("a tampered digest still decodes"),
    };
    let out = weld(&tampered, &package.chunks);
    assert_eq!(out, Err(WeldFailure::WholeFileMismatch));
}

#[test]
fn weld_failure_maps_to_validation_error() {
    assert!(matches!(
        WeldFailure::ChunkMismatch(3).to_error(),
        PvkrError::ValidationError(_)
    ));
    assert!(matches!(
        WeldFailure::WholeFileMismatch.to_error(),
        PvkrError::ValidationError(_)
    ));
}

#[test]
fn output_dir_policy() {
    assert!(check_output_dir(false, false).is_ok());
    assert!(check_output_dir(false, true).is_ok());
    assert!(check_output_dir(true, true).is_ok());
    assert!(matches!(
        check_output_dir(true, false),
        Err(PvkrError::ValidationError(_))
    ));
}
