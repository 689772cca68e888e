use pvkr::error::PvkrError;
use pvkr::manifest::Manifest;
use pvkr::sha256::Sha256;
use pvkr::stream::{ByteReader, Streamable};

#[test]
fn u128_writes_sixteen_big_endian_bytes() {
    let mut out: Vec<u8> = Vec::new();
    let _ = 258u128.write_to(&mut out);
    let mut expected = vec![0u8; 14];
    expected.push(1);
    expected.push(2);
    assert_eq!(out, expected);
}

#[test]
fn u128_round_trips_through_the_stream() {
    for v in [0u128, 1, 255, 256, 258, u128::from(u64::MAX), u128::MAX] {
        let mut out: Vec<u8> = Vec::new();
        let _ = v.write_to(&mut out);
        assert_eq!(out.len(), 16);
        let mut reader = ByteReader::new(out);
        let back = u128::read_from(&mut reader);
        assert_eq!(back, Ok(v));
        assert_eq!(reader.remaining(), 0);
    }
}

#[test]
fn u128_read_fails_on_a_truncated_stream() {
    let mut reader = ByteReader::new(vec![0u8; 15]);
    let back = u128::read_from(&mut reader);
    assert!(matches!(back, Err(PvkrError::InvalidPvkrPackage(_))));
}

#[test]
fn digest_read_requires_all_32_bytes() {
    let mut reader = ByteReader::new((0u8..32).collect());
    let d = Sha256::read_from(&mut reader);
    let mut out: Vec<u8> = Vec::new();
    match d {
        Ok(d) => {
            let _ = d.write_to(&mut out);
        },
        Err(_) => panic!("32 bytes must read as a digest"),
    }
    let expected: Vec<u8> = (0u8..32).collect();
    assert_eq!(out, expected);

    let mut short = ByteReader::new(vec![0u8; 31]);
    assert!(matches!(
        Sha256::read_from(&mut short),
        Err(PvkrError::InvalidPvkrPackage(_))
    ));
}

#[test]
fn maybe_read_distinguishes_clean_end_from_partial_record() {
    let mut empty = ByteReader::new(Vec::new());
    assert!(matches!(Sha256::maybe_read_from(&mut empty), Ok(None)));

    let mut full = ByteReader::new(vec![7u8; 32]);
    assert!(matches!(Sha256::maybe_read_from(&mut full), Ok(Some(_))));

    let mut partial = ByteReader::new(vec![7u8; 12]);
    assert!(matches!(
        Sha256::maybe_read_from(&mut partial),
        Err(PvkrError::InvalidPvkrPackage(_))
    ));
}

#[test]
fn manifest_layout_is_digest_length_name_digests() {
    let file = b"hello world".to_vec();
    let whole = Sha256::of_bytes(&file);
    let chunk = Sha256::of_bytes(&b"hello".to_vec());
    let m = Manifest {
        whole_file_digest: whole,
        base_name: b"pkg".to_vec(),
        chunk_digests: vec![chunk],
    };
    let bytes = m.encode();
    assert_eq!(bytes.len(), 32 + 16 + 3 + 32);

    let mut whole_bytes: Vec<u8> = Vec::new();
    let _ = m.whole_file_digest.write_to(&mut whole_bytes);
    assert_eq!(&bytes[..32], &whole_bytes[..]);

    let mut len_field = vec![0u8; 15];
    len_field.push(3);
    assert_eq!(&bytes[32..48], &len_field[..]);
    assert_eq!(&bytes[48..51], b"pkg");

    let mut chunk_bytes: Vec<u8> = Vec::new();
    let _ = m.chunk_digests[0].write_to(&mut chunk_bytes);
    assert_eq!(&bytes[51..], &chunk_bytes[..]);
}

#[test]
fn manifest_decode_rejects_malformed_streams() {
    assert!(matches!(
        Manifest::decode(Vec::new()),
        Err(PvkrError::InvalidPvkrPackage(_))
    ));
    assert!(matches!(
        Manifest::decode(vec![0u8; 47]),
        Err(PvkrError::InvalidPvkrPackage(_))
    ));

    // base name longer than the rest of the stream
    let mut bytes = vec![0u8; 32];
    bytes.extend_from_slice(&[0u8; 15]);
    bytes.push(9);
    bytes.extend_from_slice(b"abc");
    assert!(matches!(
        Manifest::decode(bytes),
        Err(PvkrError::InvalidPvkrPackage(_))
    ));

    // a trailing partial digest record
    let mut bytes = vec![0u8; 32];
    bytes.extend_from_slice(&[0u8; 16]);
    bytes.extend_from_slice(&[1u8; 13]);
    assert!(matches!(
        Manifest::decode(bytes),
        Err(PvkrError::InvalidPvkrPackage(_))
    ));
}

#[test]
fn manifest_with_no_chunks_decodes() {
    let whole = Sha256::of_bytes(&Vec::new());
    let m = Manifest {
        whole_file_digest: whole,
        base_name: Vec::new(),
        chunk_digests: Vec::new(),
    };
    let bytes = m.encode();
    assert_eq!(bytes.len(), 48);
    let back = match Manifest::decode(bytes) {
        Ok(m) => m,
        Err(_) => panic!("an empty-chunk manifest must decode"),
    };
    assert_eq!(back.base_name, Vec::<u8>::new());
    assert_eq!(back.chunk_digests.len(), 0);
}

#[test]
fn base_name_must_be_utf8() {
    let whole = Sha256::of_bytes(&Vec::new());
    let good = Manifest {
        whole_file_digest: whole,
        base_name: b"data-set".to_vec(),
        chunk_digests: Vec::new(),
    };
    assert_eq!(good.base_name_string(), Ok("data-set".to_string()));

    let whole = Sha256::of_bytes(&Vec::new());
    let bad = Manifest {
        whole_file_digest: whole,
        base_name: vec![0xff, 0xfe],
        chunk_digests: Vec::new(),
    };
    assert!(matches!(
        bad.base_name_string(),
        Err(PvkrError::InvalidPvkrPackage(_))
    ));
}

#[test]
fn error_constructors_carry_their_kind_and_message() {
    assert!(matches!(
        PvkrError::validation_error::<()>("v"),
        Err(PvkrError::ValidationError(m)) if m == "v"
    ));
    assert!(matches!(
        PvkrError::file_not_found::<()>("f"),
        Err(PvkrError::FileNotFound(m)) if m == "f"
    ));
    assert!(matches!(
        PvkrError::not_a_pvkr_package::<()>("n"),
        Err(PvkrError::NotAPvkrPackage(m)) if m == "n"
    ));
    assert!(matches!(
        PvkrError::invalid_pvkr_package::<()>("i"),
        Err(PvkrError::InvalidPvkrPackage(m)) if m == "i"
    ));
}
