use mockchain_core::packer::{ReadBuf, ReadError, StructureError};
use mockchain_core::hash::HashError;
use mockchain_core::keys::{KesPublicKey, LeaderId, PublicKey, Signature, VrfPublicKey};
use mockchain_core::header::{
    BftProof, BlockDate, BlockVersion, Common, Header, Proof,
};
use mockchain_core::message::{ConfigParam, InitialEnts, Message, MessageRaw};
use mockchain_core::block::{Block, BlockContents};
use mockchain_core::stake::{GenesisPraosLeader, StakeKeyId, StakePoolInfo};

fn sample_messages() -> Vec<Message> {
    let mut ents = InitialEnts::new();
    ents.push(ConfigParam { tag: 7, payload: vec![1, 2] });
    vec![Message::Other(5, vec![1, 2, 3]), Message::Initial(ents)]
}

fn sample_header(contents: &BlockContents) -> Header {
    let (hash, size) = contents.compute_hash_size();
    Header {
        common: Common {
            block_version: BlockVersion::Genesis,
            block_content_size: size as u32,
            block_date: BlockDate { epoch: 1, slot_id: 2 },
            chain_length: 3,
            block_content_hash: hash,
            block_parent_hash: mockchain_core::hash::Hash::hash_bytes(&[0xaa, 0xbb]),
        },
        proof: Proof::NoProof,
    }
}

#[test]
fn block_serialization_bijection() {
    let contents = BlockContents::new(sample_messages());
    let header = sample_header(&contents);
    let block = Block { header, contents };
    assert!(block.is_consistent());
    let mut out: Vec<u8> = Vec::new();
    block.serialize(&mut out);
    let mut rb = ReadBuf::new(out.as_slice());
    let back = Block::deserialize(&mut rb).unwrap();
    assert!(rb.is_end());
    assert!(back.is_consistent());
    assert_eq!(back, block);
    assert_eq!(back.messages().len(), 2);
    let mut again: Vec<u8> = Vec::new();
    back.serialize(&mut again);
    assert_eq!(again, out);
}

#[test]
fn block_decode_rejects_overrun() {
    let contents = BlockContents::new(sample_messages());
    let mut header = sample_header(&contents);
    header.common.block_content_size = 1;
    let block = Block { header, contents };
    let mut out: Vec<u8> = Vec::new();
    block.serialize(&mut out);
    let mut rb = ReadBuf::new(out.as_slice());
    assert_eq!(
        Block::deserialize(&mut rb),
        Err(ReadError::StructureInvalid(StructureError::Overrun))
    );
}

#[test]
fn block_decode_rejects_content_hash_mismatch() {
    let contents = BlockContents::new(sample_messages());
    let mut header = sample_header(&contents);
    header.common.block_content_hash = mockchain_core::hash::Hash::hash_bytes(&[0xde, 0xad]);
    let block = Block { header, contents };
    assert!(!block.is_consistent());
    let mut out: Vec<u8> = Vec::new();
    block.serialize(&mut out);
    let mut rb = ReadBuf::new(out.as_slice());
    assert_eq!(
        Block::deserialize(&mut rb),
        Err(ReadError::StructureInvalid(StructureError::ContentHashMismatch))
    );
}

#[test]
fn block_equality_is_header_hash_equality() {
    let contents_a = BlockContents::new(sample_messages());
    let header = sample_header(&contents_a);
    let a = Block { header: header.clone(), contents: contents_a };
    let b = a.clone();
    assert_eq!(a, b);
    let mut other_header = header;
    other_header.common.chain_length = 99;
    let c = Block { header: other_header, contents: a.contents.clone() };
    assert!(a != c);
}

#[test]
fn header_bft_round_trips() {
    let contents = BlockContents::new(Vec::new());
    let (hash, size) = contents.compute_hash_size();
    let header = Header {
        common: Common {
            block_version: BlockVersion::Ed25519Signed,
            block_content_size: size as u32,
            block_date: BlockDate { epoch: 4, slot_id: 5 },
            chain_length: 6,
            block_content_hash: hash,
            block_parent_hash: mockchain_core::hash::Hash::hash_bytes(&[1]),
        },
        proof: Proof::Bft(BftProof {
            leader_id: LeaderId::from_bytes(vec![2u8; 32]),
            signature: Signature::from_bytes(vec![3u8; 64]),
        }),
    };
    let mut out: Vec<u8> = Vec::new();
    header.serialize(&mut out);
    assert_eq!(out.len(), 82 + 96);
    let mut rb = ReadBuf::new(out.as_slice());
    let back = Header::read(&mut rb).unwrap();
    assert!(rb.is_end());
    let mut again: Vec<u8> = Vec::new();
    back.serialize(&mut again);
    assert_eq!(again, out);
}

#[test]
fn header_unknown_version_is_fatal() {
    let mut bytes = vec![0u8; 82];
    bytes[1] = 9;
    let mut rb = ReadBuf::new(bytes.as_slice());
    match Header::read(&mut rb) {
        Err(e) => assert_eq!(e, ReadError::UnknownTag(9)),
        Ok(_) => panic!("decoded a header of an unregistered version"),
    }
}

#[test]
fn initial_ents_round_trips() {
    let mut ents = InitialEnts::new();
    ents.push(ConfigParam { tag: 1, payload: vec![] });
    ents.push(ConfigParam { tag: 2, payload: vec![9, 8, 7] });
    let mut out: Vec<u8> = Vec::new();
    ents.serialize(&mut out);
    assert_eq!(out, vec![0, 1, 0, 0, 0, 2, 0, 3, 9, 8, 7]);
    let mut rb = ReadBuf::new(out.as_slice());
    let back = InitialEnts::read(&mut rb).unwrap();
    assert_eq!(back.iter().len(), 2);
    assert_eq!(back.iter()[1].tag, 2);
    assert_eq!(back.iter()[1].payload, vec![9, 8, 7]);
}

#[test]
fn message_raw_round_trips() {
    let msg = Message::Other(9, vec![1, 2, 3, 4]);
    let raw = msg.to_raw();
    assert_eq!(raw.size_bytes_plus_size(), 7);
    let back = Message::from_raw(&raw).unwrap();
    match back {
        Message::Other(tag, payload) => {
            assert_eq!(tag, 9);
            assert_eq!(payload, vec![1, 2, 3, 4]);
        },
        _ => panic!("wrong variant"),
    }
    let mut out: Vec<u8> = Vec::new();
    msg.serialize(&mut out);
    let mut rb = ReadBuf::new(out.as_slice());
    let raw2 = MessageRaw::read(&mut rb).unwrap();
    assert_eq!(raw2.as_bytes(), raw.as_bytes());
}

#[test]
fn hash_width_is_checked() {
    assert!(mockchain_core::hash::Hash::try_from_slice(&[0u8; 32]).is_ok());
    assert_eq!(
        mockchain_core::hash::Hash::try_from_slice(&[0u8; 31]),
        Err(HashError::InvalidSize { expected: 32, actual: 31 })
    );
}

fn sample_pool(owners: Vec<StakeKeyId>) -> StakePoolInfo {
    StakePoolInfo {
        serial: 1,
        owners,
        initial_key: GenesisPraosLeader {
            kes_public_key: KesPublicKey::from_bytes(vec![7u8; 32]),
            vrf_public_key: VrfPublicKey::from_bytes(vec![8u8; 32]),
        },
    }
}

#[test]
fn pool_id_depends_only_on_field_values() {
    let k_a = StakeKeyId::from_public(PublicKey::from_bytes(vec![1u8; 32]));
    let k_b = StakeKeyId::from_public(PublicKey::from_bytes(vec![2u8; 32]));
    let pool = sample_pool(vec![k_a.clone(), k_b.clone()]);
    let rebuilt = sample_pool(vec![k_a, k_b]);
    assert_eq!(pool.to_id(), rebuilt.to_id());
}

#[test]
fn pool_id_owner_order_matters() {
    let k_a = StakeKeyId::from_public(PublicKey::from_bytes(vec![1u8; 32]));
    let k_b = StakeKeyId::from_public(PublicKey::from_bytes(vec![2u8; 32]));
    let pool_ab = sample_pool(vec![k_a.clone(), k_b.clone()]);
    let pool_ba = sample_pool(vec![k_b, k_a]);
    assert!(pool_ab.to_id() != pool_ba.to_id());
}

#[test]
fn pool_info_round_trips() {
    let k_a = StakeKeyId::from_public(PublicKey::from_bytes(vec![1u8; 32]));
    let k_b = StakeKeyId::from_public(PublicKey::from_bytes(vec![2u8; 32]));
    let pool = sample_pool(vec![k_a, k_b]);
    let mut out: Vec<u8> = Vec::new();
    pool.serialize(&mut out);
    assert_eq!(out.len(), 16 + 1 + 64 + 64);
    let mut rb = ReadBuf::new(out.as_slice());
    let back = StakePoolInfo::read(&mut rb).unwrap();
    assert!(rb.is_end());
    assert_eq!(back.serial, 1);
    assert_eq!(back.owners.len(), 2);
    assert_eq!(back.to_id(), pool.to_id());
    let mut again: Vec<u8> = Vec::new();
    back.serialize(&mut again);
    assert_eq!(again, out);
}

#[test]
fn truncated_pool_info_is_not_enough() {
    let bytes = vec![0u8; 16];
    let mut rb = ReadBuf::new(bytes.as_slice());
    assert!(matches!(
        StakePoolInfo::read(&mut rb),
        Err(ReadError::NotEnough { .. })
    ));
}
