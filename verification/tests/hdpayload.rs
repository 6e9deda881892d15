use mockchain_core::hdpayload::{HDAddressPayload, HDKey, Path};

#[test]
fn encrypt() {
    let bytes = vec![42u8; 256];
    let root_pub = [0u8; 64];
    let key = HDKey::new(&root_pub);
    let payload = key.encrypt(&bytes);
    assert_eq!(Some(bytes), key.decrypt(&payload))
}

#[test]
fn path_cbor_encoding() {
    let path = Path::new(vec![0, 1, 2]);
    let cbor = path.cbor();
    assert_eq!(path, Path::from_cbor(cbor.as_slice()).unwrap());
}

#[test]
fn hdpayload() {
    let path = Path::new(vec![0, 1, 2]);
    let root_pub = [0u8; 64];
    let key = HDKey::new(&root_pub);
    let payload = key.encrypt_path(&path);
    assert_eq!(Some(path), key.decrypt_path(&payload))
}

#[test]
fn unit1() {
    let key = HDKey::from_bytes([0u8; 32]);
    let dat = [0x9f, 0x00, 0x01, 0xff];
    let expected = [
        0xda, 0xac, 0x4a, 0x55, 0xfc, 0xa7, 0x48, 0xf3, 0x2f, 0xfa, 0xf4, 0x9e, 0x2b, 0x41,
        0xab, 0x86, 0xf3, 0x54, 0xdb, 0x96,
    ];
    let got = key.encrypt(&dat[..]);
    assert_eq!(&expected[..], &got[..])
}

#[test]
fn unit2() {
    let path = Path::new(vec![0, 1]);
    let expected = [0x9f, 0x00, 0x01, 0xff];
    let cbor = path.cbor();
    assert_eq!(&expected[..], &cbor[..])
}

#[test]
fn hd_wrong_key_rejection() {
    let key_a = HDKey::new(&[0u8; 64]);
    let key_b = HDKey::new(&[1u8; 64]);
    let path = Path::new(vec![0, 1]);
    let payload = key_a.encrypt_path(&path);
    assert_eq!(None, key_b.decrypt_path(&payload));
}

#[test]
fn decrypt_short_input_is_none() {
    let key = HDKey::from_bytes([0u8; 32]);
    assert_eq!(None, key.decrypt(&[0u8; 16]));
    assert_eq!(None, key.decrypt(&[]));
}

#[test]
fn decrypt_tampered_is_none() {
    let key = HDKey::from_bytes([0u8; 32]);
    let mut ct = key.encrypt(&[1u8, 2, 3]);
    let last = ct.len() - 1;
    ct[last] ^= 1;
    assert_eq!(None, key.decrypt(&ct));
}

#[test]
fn hdkey_from_slice_checks_width() {
    assert!(HDKey::from_slice(&[0u8; 32]).is_some());
    assert!(HDKey::from_slice(&[0u8; 31]).is_none());
    assert!(HDKey::from_slice(&[0u8; 33]).is_none());
}

#[test]
fn payload_cbor_wrapping() {
    let payload = HDAddressPayload::from_bytes(&[1u8, 2, 3]);
    assert_eq!(payload.len(), 3);
    let cbor = payload.cbor();
    assert_eq!(cbor, vec![0x44, 0x43, 0x01, 0x02, 0x03]);
    let back = HDAddressPayload::from_cbor(cbor.as_slice()).unwrap();
    assert_eq!(back, payload);
}
