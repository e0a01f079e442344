use block_stm::dkg::{
    DKGConfig, DKGConfigV0, DKGError, DKGNode, DKGPrivateParamsProvider, DKGSessionMetadata,
    DKGTrait, DKGTranscriptMetadata, DummyDKG, DummyDKGTranscript, PrivateKey,
};

fn session() -> DKGSessionMetadata {
    DKGSessionMetadata {
        config: DKGConfig::default(),
        dealer_epoch: 3,
        dealer_validator_set: vec![],
        target_validator_set: vec![],
    }
}

#[test]
fn default_threshold_is_one_half() {
    assert_eq!(DKGConfig::default().aggregation_threshold(), Ok(u64::MAX / 2));
    assert_eq!(DKGConfig::V0(DKGConfigV0::default()), DKGConfig::default());
    assert_eq!(DKGConfig::V0(DKGConfigV0::new(17)).aggregation_threshold(), Ok(17));
    assert_eq!(DKGConfig::Unknown(2).aggregation_threshold(), Err(DKGError::UnknownVariant));
}

#[test]
fn node_holds_its_metadata_and_bytes() {
    let node = DKGNode::new(4, 9, vec![1, 2, 3]);
    assert_eq!(node.metadata, DKGTranscriptMetadata { epoch: 4, author: 9 });
    assert_eq!(node.transcript_bytes, vec![1, 2, 3]);
}

#[test]
fn dummy_transcripts() {
    let key = PrivateKey { bytes: vec![7] };
    let params = DummyDKG::new_public_params(session());
    assert_eq!(params, session());
    let generated = DummyDKG::generate_transcript(&vec![1, 2], &params, 0, &key);
    assert_eq!(DummyDKG::serialize_transcript(&generated), b"data".to_vec());
    assert_eq!(generated, DummyDKGTranscript::default());
    assert_eq!(DummyDKG::verify_transcript(&params, &generated), Ok(()));
    let mut base = DummyDKG::deserialize_transcript(&vec![1, 2]).unwrap();
    DummyDKG::aggregate_transcripts(&params, &mut base, &generated);
    assert_eq!(DummyDKG::serialize_transcript(&base), vec![1, 2, 100, 97, 116, 97]);
    assert_eq!(
        DummyDKG::deserialize_transcript(&vec![]),
        Err(DKGError::BadTranscriptLength)
    );
    assert_eq!(
        <PrivateKey as DKGPrivateParamsProvider<DummyDKG>>::dkg_private_params(&key),
        &key
    );
}
