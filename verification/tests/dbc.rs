use lnpbp::dbc::{
    CommitmentHost, Container, Proof, PubkeyContainer, PublicKey, ScriptEncodeData,
};
use lnpbp::error::{Error, TypeName};

fn test_key(first: u8) -> PublicKey {
    let mut bytes = vec![first];
    bytes.extend(std::iter::repeat(0x11).take(32));
    PublicKey::from_bytes(bytes).unwrap()
}

#[test]
fn pubkey_length_enforced() {
    assert!(PublicKey::from_bytes(vec![0x02; 33]).is_some());
    assert!(PublicKey::from_bytes(vec![0x02; 32]).is_none());
    assert!(PublicKey::from_bytes(vec![]).is_none());
}

#[test]
fn proof_from_bare_pubkey() {
    let key = test_key(0x02);
    let proof = Proof::from(key.clone());
    assert_eq!(proof.pubkey, key);
    assert_eq!(proof.source, ScriptEncodeData::SinglePubkey);
}

#[test]
fn proof_round_trips() {
    let bare = Proof::from(test_key(0x02));
    let bytes = bare.strict_serialize().unwrap();
    assert_eq!(bytes.len(), 34);
    assert_eq!(bytes[33], 0x00);
    assert_eq!(Proof::strict_decode(&bytes, 0), Ok((bare, 34)));

    let scripted = Proof {
        pubkey: test_key(0x03),
        source: ScriptEncodeData::LockScript(vec![0x51, 0x52, 0x53]),
    };
    let bytes = scripted.strict_serialize().unwrap();
    // 33 key bytes, the tag, a two-byte count, three script bytes
    assert_eq!(bytes.len(), 39);
    assert_eq!(&bytes[33..], &[0x01, 0x03, 0x00, 0x51, 0x52, 0x53]);
    assert_eq!(Proof::strict_decode(&bytes, 0), Ok((scripted, 39)));
}

#[test]
fn oversized_script_rejected_on_encode() {
    let proof = Proof {
        pubkey: test_key(0x02),
        source: ScriptEncodeData::LockScript(vec![0x00; 70_000]),
    };
    assert_eq!(proof.strict_serialize(), Err(Error::ValueOutOfRange));
}

#[test]
fn unknown_source_tag_rejected() {
    let mut bytes = test_key(0x02).bytes.clone();
    bytes.push(0x05);
    assert_eq!(
        Proof::strict_decode(&bytes, 0),
        Err(Error::EnumValueNotKnown(TypeName::ScriptEncodeData, 5))
    );
    assert_eq!(TypeName::ScriptEncodeData.name(), "dbc::ScriptEncodeData");
}

#[test]
fn short_proof_stream_rejected() {
    let bytes = vec![0x02; 20];
    assert_eq!(Proof::strict_decode(&bytes, 0), Err(Error::DataIncomplete));
    let bytes = test_key(0x02).bytes.clone();
    assert_eq!(Proof::strict_decode(&bytes, 0), Err(Error::DataIncomplete));
}

#[test]
fn commitment_round_trip() {
    let key = test_key(0x02);
    let proof = Proof {
        pubkey: key.clone(),
        source: ScriptEncodeData::LockScript(vec![0x51, 0xa9]),
    };
    let host = CommitmentHost {
        anchor: key,
        embedding: ScriptEncodeData::LockScript(vec![0x51, 0xa9]),
    };
    let supplement = vec![0x07, 0x08];
    let container = PubkeyContainer::reconstruct(&proof, &supplement, &host).unwrap();
    assert_eq!(container.to_proof(), proof);
    assert_eq!(
        container.to_proof().strict_serialize().unwrap(),
        proof.strict_serialize().unwrap()
    );
    let (rebuilt, supp) = container.deconstruct();
    assert_eq!(rebuilt, proof.clone());
    assert_eq!(supp, vec![0x07, 0x08]);

    let container = PubkeyContainer::reconstruct(&proof, &supplement, &host).unwrap();
    assert_eq!(container.into_proof(), proof);
}

#[test]
fn commitment_mismatch_detected() {
    let proof = Proof::from(test_key(0x02));
    let host = CommitmentHost {
        anchor: test_key(0x03),
        embedding: ScriptEncodeData::SinglePubkey,
    };
    assert_eq!(
        PubkeyContainer::reconstruct(&proof, &vec![], &host),
        Err(Error::CommitmentMismatch)
    );
}

#[test]
fn incompatible_proof_structure_detected() {
    let key = test_key(0x02);
    let proof = Proof::from(key.clone());
    let host = CommitmentHost {
        anchor: key,
        embedding: ScriptEncodeData::LockScript(vec![0x51]),
    };
    assert_eq!(
        PubkeyContainer::reconstruct(&proof, &vec![], &host),
        Err(Error::InvalidProofStructure)
    );
}
