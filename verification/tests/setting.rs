use mockchain_core::packer::{ReadBuf, ReadError, StructureError};
use mockchain_core::keys::LeaderId;
use mockchain_core::setting::{ConsensusVersion, LinearFee, Settings, UpdateProposal};

#[test]
fn slot_duration_update_encodes_as_documented() {
    let mut update = UpdateProposal::new();
    update.slot_duration = Some(7);
    let mut out: Vec<u8> = Vec::new();
    update.serialize(&mut out);
    assert_eq!(out, vec![0x00, 0x07, 0x07, 0x00, 0x00]);
    let mut rb = ReadBuf::new(out.as_slice());
    let back = UpdateProposal::read(&mut rb).unwrap();
    assert_eq!(back.slot_duration, Some(7));
    assert_eq!(back.max_number_of_transactions_per_block, None);
    assert_eq!(back.bootstrap_key_slots_percentage, None);
    assert_eq!(back.consensus_version, None);
    assert!(back.bft_leaders.is_none());
    assert_eq!(back.allow_account_creation, None);
    assert_eq!(back.linear_fees, None);
    assert_eq!(back.epoch_stability_depth, None);
    assert!(rb.is_end());
}

#[test]
fn full_update_round_trips() {
    let mut update = UpdateProposal::new();
    update.max_number_of_transactions_per_block = Some(17);
    update.bootstrap_key_slots_percentage = Some(80);
    update.consensus_version = Some(ConsensusVersion::GenesisPraos);
    update.bft_leaders = Some(vec![
        LeaderId::from_bytes(vec![3u8; 32]),
        LeaderId::from_bytes(vec![4u8; 32]),
    ]);
    update.allow_account_creation = Some(true);
    update.linear_fees = Some(LinearFee::new(1, 2, 3));
    update.slot_duration = Some(250);
    update.epoch_stability_depth = Some(9);
    let mut out: Vec<u8> = Vec::new();
    update.serialize(&mut out);
    let mut rb = ReadBuf::new(out.as_slice());
    let back = UpdateProposal::read(&mut rb).unwrap();
    assert_eq!(back.max_number_of_transactions_per_block, Some(17));
    assert_eq!(back.bootstrap_key_slots_percentage, Some(80));
    assert_eq!(back.consensus_version, Some(ConsensusVersion::GenesisPraos));
    let leaders = back.bft_leaders.unwrap();
    assert_eq!(leaders.len(), 2);
    assert_eq!(leaders[0].as_bytes(), &vec![3u8; 32]);
    assert_eq!(leaders[1].as_bytes(), &vec![4u8; 32]);
    assert_eq!(back.allow_account_creation, Some(true));
    assert_eq!(back.linear_fees, Some(LinearFee::new(1, 2, 3)));
    assert_eq!(back.slot_duration, Some(250));
    assert_eq!(back.epoch_stability_depth, Some(9));
    assert!(rb.is_end());
}

#[test]
fn unknown_update_tag_is_fatal() {
    let bytes = vec![0x00u8, 0x09, 0x00, 0x00];
    let mut rb = ReadBuf::new(bytes.as_slice());
    match UpdateProposal::read(&mut rb) {
        Err(e) => assert_eq!(e, ReadError::UnknownTag(9)),
        Ok(_) => panic!("decoded an update with an unregistered tag"),
    }
}

#[test]
fn unrecognized_consensus_version_is_fatal() {
    let bytes = vec![0x00u8, 0x03, 0x00, 0x05, 0x00, 0x00];
    let mut rb = ReadBuf::new(bytes.as_slice());
    match UpdateProposal::read(&mut rb) {
        Err(e) => assert_eq!(
            e,
            ReadError::StructureInvalid(StructureError::BadConsensusVersion)
        ),
        Ok(_) => panic!("decoded an update with an unregistered consensus version"),
    }
}

#[test]
fn truncated_update_is_not_enough() {
    let bytes = vec![0x00u8, 0x01, 0x00];
    let mut rb = ReadBuf::new(bytes.as_slice());
    assert!(matches!(
        UpdateProposal::read(&mut rb),
        Err(ReadError::NotEnough { .. })
    ));
}

#[test]
fn settings_defaults() {
    let s = Settings::new();
    assert_eq!(s.max_number_of_transactions_per_block, 100);
    assert_eq!(s.bootstrap_key_slots_percentage, 100);
    assert_eq!(s.consensus_version, ConsensusVersion::Bft);
    assert!(s.bft_leaders.is_empty());
    assert!(!s.allow_account_creation());
    assert_eq!(s.linear_fees(), LinearFee::new(0, 0, 0));
    assert_eq!(s.slot_duration, 10);
    assert_eq!(s.epoch_stability_depth, 10);
}

#[test]
fn apply_absent_fields_leave_settings_unchanged() {
    let s = Settings::new();
    let empty = UpdateProposal::new();
    let t = s.apply(&empty);
    assert_eq!(t.max_number_of_transactions_per_block, s.max_number_of_transactions_per_block);
    assert_eq!(t.bootstrap_key_slots_percentage, s.bootstrap_key_slots_percentage);
    assert_eq!(t.consensus_version, s.consensus_version);
    assert_eq!(t.bft_leaders.len(), s.bft_leaders.len());
    assert_eq!(t.allow_account_creation, s.allow_account_creation);
    assert_eq!(t.linear_fees, s.linear_fees);
    assert_eq!(t.slot_duration, s.slot_duration);
    assert_eq!(t.epoch_stability_depth, s.epoch_stability_depth);
}

#[test]
fn apply_overwrites_exactly_the_present_fields() {
    let s = Settings::new();
    let mut update = UpdateProposal::new();
    update.slot_duration = Some(30);
    update.allow_account_creation = Some(true);
    let t = s.apply(&update);
    assert_eq!(t.slot_duration, 30);
    assert!(t.allow_account_creation());
    assert_eq!(t.max_number_of_transactions_per_block, 100);
    assert_eq!(t.consensus_version, ConsensusVersion::Bft);
}
