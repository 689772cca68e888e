use pvkr::sha256::{Sha256, Sha256Builder};

fn digest_bytes(d: &Sha256) -> Vec<u8> {
    let mut out: Vec<u8> = Vec::new();
    let _ = d.write_to(&mut out);
    out
}

#[test]
fn digest_of_empty_input_is_the_known_vector() {
    let expected: Vec<u8> = vec![
        0xe3, 0xb0, 0xc4, 0x42, 0x98, 0xfc, 0x1c, 0x14, 0x9a, 0xfb, 0xf4, 0xc8, 0x99, 0x6f,
        0xb9, 0x24, 0x27, 0xae, 0x41, 0xe4, 0x64, 0x9b, 0x93, 0x4c, 0xa4, 0x95, 0x99, 0x1b,
        0x78, 0x52, 0xb8, 0x55,
    ];
    let d = Sha256::of_bytes(&Vec::new());
    assert_eq!(digest_bytes(&d), expected);
}

#[test]
fn digest_of_abc_is_the_known_vector() {
    let expected: Vec<u8> = vec![
        0xba, 0x78, 0x16, 0xbf, 0x8f, 0x01, 0xcf, 0xea, 0x41, 0x41, 0x40, 0xde, 0x5d, 0xae,
        0x22, 0x23, 0xb0, 0x03, 0x61, 0xa3, 0x96, 0x17, 0x7a, 0x9c, 0xb4, 0x10, 0xff, 0x61,
        0xf2, 0x00, 0x15, 0xad,
    ];
    let d = Sha256::of_bytes(&b"abc".to_vec());
    assert_eq!(digest_bytes(&d), expected);
}

#[test]
fn any_partition_of_updates_gives_the_same_digest() {
    let data: Vec<u8> = (0..5000).map(|i| (i % 256) as u8).collect();

    let whole = Sha256::of_bytes(&data);

    let mut one = Sha256Builder::new();
    one.update(&data);
    let one = one.finish();

    let mut ragged = Sha256Builder::new();
    ragged.update(&data[..1]);
    ragged.update(&[]);
    ragged.update(&data[1..700]);
    ragged.update(&data[700..700]);
    ragged.update(&data[700..]);
    let ragged = ragged.finish();

    assert!(whole.equals(&one));
    assert!(whole.equals(&ragged));
    assert_eq!(digest_bytes(&whole), digest_bytes(&ragged));
}

#[test]
fn different_bytes_give_different_digests() {
    let a = Sha256::of_bytes(&b"abc".to_vec());
    let b = Sha256::of_bytes(&b"abd".to_vec());
    assert!(!a.equals(&b));
    assert!(a.equals(&a));
}
