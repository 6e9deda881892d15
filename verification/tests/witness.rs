use mockchain_core::packer::{ReadBuf, ReadError};
use mockchain_core::keys::{Bip32PublicKey, SecretKey, Signature, Verification};
use mockchain_core::witness::{
    SpendingCounter, TransactionId, TransactionIdSpendingCounter, Witness, WitnessError,
};

#[test]
fn witness_verifies_own_tx() {
    let sk = SecretKey::from_bytes(vec![7u8; 32]);
    let pk = sk.to_public();
    let tx = TransactionId::from_bytes(vec![0u8; 32]);
    let witness = Witness::new_utxo(&tx, &sk);
    assert_eq!(witness.verify_utxo(&pk, &tx), Ok(Verification::Success));
}

#[test]
fn witness_fails_other_tx() {
    let sk = SecretKey::from_bytes(vec![7u8; 32]);
    let pk = sk.to_public();
    let tx = TransactionId::from_bytes(vec![0u8; 32]);
    let other = TransactionId::from_bytes(vec![1u8; 32]);
    let witness = Witness::new_utxo(&tx, &sk);
    assert_eq!(witness.verify_utxo(&pk, &other), Ok(Verification::Failed));
}

#[test]
fn account_witness_never_verifies_utxo() {
    let sk = SecretKey::from_bytes(vec![9u8; 32]);
    let pk = sk.to_public();
    let tx = TransactionId::from_bytes(vec![0u8; 32]);
    let witness = Witness::new_account(&tx, &SpendingCounter::new(1), &sk);
    assert_eq!(witness.verify_utxo(&pk, &tx), Ok(Verification::Failed));
}

#[test]
fn old_utxo_verification_is_unsupported() {
    let sk = SecretKey::from_bytes(vec![9u8; 32]);
    let pk = sk.to_public();
    let tx = TransactionId::from_bytes(vec![0u8; 32]);
    let witness = Witness::OldUtxo(
        Bip32PublicKey::from_bytes(vec![0u8; 64]),
        Signature::from_bytes(vec![0u8; 64]),
    );
    assert_eq!(witness.verify_utxo(&pk, &tx), Err(WitnessError::OldUtxoUnsupported));
}

#[test]
fn account_preimage_layout() {
    let tx = TransactionId::from_bytes(vec![0u8; 32]);
    let preimage = TransactionIdSpendingCounter::new(&tx, &SpendingCounter::new(1));
    let bytes = preimage.as_bytes();
    assert_eq!(bytes.len(), 37);
    assert_eq!(bytes[0], 0x02);
    assert_eq!(&bytes[1..33], &[0u8; 32][..]);
    assert_eq!(&bytes[33..], &[0x00, 0x00, 0x00, 0x01][..]);
}

#[test]
fn witness_serialization_bijection() {
    let sk = SecretKey::from_bytes(vec![3u8; 32]);
    let tx = TransactionId::from_bytes(vec![5u8; 32]);
    let samples = vec![
        Witness::new_utxo(&tx, &sk),
        Witness::new_account(&tx, &SpendingCounter::new(7), &sk),
        Witness::OldUtxo(
            Bip32PublicKey::from_bytes(vec![1u8; 64]),
            Signature::from_bytes(vec![2u8; 64]),
        ),
    ];
    for w in samples {
        let mut out: Vec<u8> = Vec::new();
        w.serialize(&mut out);
        let mut rb = ReadBuf::new(out.as_slice());
        let back = Witness::read(&mut rb).unwrap();
        assert!(rb.is_end());
        assert_eq!(back, w);
        let mut again: Vec<u8> = Vec::new();
        back.serialize(&mut again);
        assert_eq!(again, out);
    }
}

#[test]
fn witness_unknown_tag_is_fatal() {
    let bytes = vec![9u8; 65];
    let mut rb = ReadBuf::new(bytes.as_slice());
    assert_eq!(Witness::read(&mut rb), Err(ReadError::UnknownTag(9)));
}

#[test]
fn utxo_witness_tag_and_width() {
    let sk = SecretKey::from_bytes(vec![3u8; 32]);
    let tx = TransactionId::from_bytes(vec![5u8; 32]);
    let w = Witness::new_utxo(&tx, &sk);
    let mut out: Vec<u8> = Vec::new();
    w.serialize(&mut out);
    assert_eq!(out.len(), 65);
    assert_eq!(out[0], 1);
}
