//! Distributed key generation as the chain sees it: the configuration, the
//! state of a session, and the trait that a scheme for making transcripts
//! implements. `DummyDKG` is the scheme that makes no keys at all: its
//! transcripts are bytes that are joined end to end.

use crate::task::AccountAddress;
use crate::types::copy_bytes;
use vstd::prelude::*;

verus! {

/// Who dealt a transcript, and when.
#[derive(Clone, Copy, Debug, PartialEq, Eq, Structural)]
pub struct DKGTranscriptMetadata {
    pub epoch: u64,
    pub author: AccountAddress,
}

/// A validator and the weight of its vote.
#[derive(Clone, Copy, Debug, PartialEq, Eq, Structural)]
pub struct ValidatorConsensusInfo {
    pub address: AccountAddress,
    pub voting_power: u64,
}

/// The first version of the configuration.
#[derive(Clone, Copy, Debug, PartialEq, Eq, Structural)]
pub struct DKGConfigV0 {
    /// When this equals to `x`, `x / u64::MAX` is the DKG transcript
    /// aggregation threshold.
    aggregation_threshold: u64,
}

impl DKGConfigV0 {
    pub closed spec fn threshold(&self) -> u64 {
        self.aggregation_threshold
    }

    pub fn new(aggregation_threshold: u64) -> (config: Self)
        ensures
            config.threshold() == aggregation_threshold,
    {
        DKGConfigV0 { aggregation_threshold }
    }
}

impl Default for DKGConfigV0 {
    /// The threshold of one half.
    fn default() -> (config: Self)
        ensures
            config.threshold() == u64::MAX / 2,
    {
        Self { aggregation_threshold: u64::MAX / 2 }
    }
}

/// The configuration, in the version in which the chain holds it.
#[derive(Clone, Copy, Debug, PartialEq, Eq, Structural)]
pub enum DKGConfig {
    V0(DKGConfigV0),
    /// A version that this node does not know; the number names it.
    Unknown(u64),
}

/// Why the configuration could not be read.
#[derive(Clone, Copy, Debug, PartialEq, Eq, Structural)]
pub enum DKGError {
    /// The configuration is of a version that this node does not know.
    UnknownVariant,
    /// The transcript is empty.
    BadTranscriptLength,
}

impl Default for DKGConfig {
    fn default() -> (config: Self)
        ensures
            config matches DKGConfig::V0(v) && v.threshold() == u64::MAX / 2,
    {
        DKGConfig::V0(DKGConfigV0::default())
    }
}

impl DKGConfig {
    /// The aggregation threshold, where the version of the configuration
    /// is known.
    pub fn aggregation_threshold(&self) -> (threshold: Result<u64, DKGError>)
        ensures
            threshold == (match *self {
                DKGConfig::V0(v) => Ok::<u64, DKGError>(v.threshold()),
                DKGConfig::Unknown(_) => Err::<u64, DKGError>(DKGError::UnknownVariant),
            }),
    {
        match self {
            DKGConfig::V0(v) => Ok(v.aggregation_threshold),
            DKGConfig::Unknown(_) => Err(DKGError::UnknownVariant),
        }
    }
}

/// DKG transcript and its metadata.
#[derive(Debug, PartialEq, Eq)]
pub struct DKGNode {
    pub metadata: DKGTranscriptMetadata,
    pub transcript_bytes: Vec<u8>,
}

impl DKGNode {
    pub fn new(epoch: u64, author: AccountAddress, transcript_bytes: Vec<u8>) -> (node: Self)
        ensures
            node.metadata == (DKGTranscriptMetadata { epoch, author }),
            node.transcript_bytes == transcript_bytes,
    {
        Self { metadata: DKGTranscriptMetadata { epoch, author }, transcript_bytes }
    }
}

/// The input of DKG.
#[derive(Debug, PartialEq, Eq)]
pub struct DKGSessionMetadata {
    pub config: DKGConfig,
    pub dealer_epoch: u64,
    pub dealer_validator_set: Vec<ValidatorConsensusInfo>,
    pub target_validator_set: Vec<ValidatorConsensusInfo>,
}

/// The event that starts a session.
#[derive(Debug, PartialEq, Eq)]
pub struct DKGStartEvent {
    pub session_metadata: DKGSessionMetadata,
    pub start_time_us: u64,
}

/// The input and the run state of DKG.
#[derive(Debug, PartialEq, Eq)]
pub struct DKGSessionState {
    pub metadata: DKGSessionMetadata,
    pub start_time_us: u64,
    pub result: Vec<u8>,
    pub deadline_microseconds: u64,
}

/// The last session that was completed and the one that is under way.
#[derive(Debug, PartialEq, Eq)]
pub struct DKGState {
    pub last_complete: Option<DKGSessionState>,
    pub in_progress: Option<DKGSessionState>,
}

/// A scheme for distributed key generation.
pub trait DKGTrait {
    type PrivateParams;

    type PublicParams;

    type Transcript;

    fn new_public_params(dkg_session_metadata: DKGSessionMetadata) -> (params: Self::PublicParams)
    ;

    /// Makes the transcript of the dealer `my_index` from random bytes.
    fn generate_transcript(
        randomness: &Vec<u8>,
        params: &Self::PublicParams,
        my_index: usize,
        sk: &Self::PrivateParams,
    ) -> (transcript: Self::Transcript)
    ;

    fn verify_transcript(params: &Self::PublicParams, trx: &Self::Transcript) -> (verified: Result<
        (),
        DKGError,
    >)
    ;

    fn aggregate_transcripts(
        params: &Self::PublicParams,
        base: &mut Self::Transcript,
        extra: &Self::Transcript,
    )
    ;

    fn serialize_transcript(trx: &Self::Transcript) -> (bytes: Vec<u8>)
    ;

    fn deserialize_transcript(bytes: &Vec<u8>) -> (trx: Result<Self::Transcript, DKGError>)
    ;
}

/// Hands out the private parameters of a scheme.
pub trait DKGPrivateParamsProvider<DKG: DKGTrait> {
    fn dkg_private_params(&self) -> &DKG::PrivateParams;
}

/// A private key, as bytes.
#[derive(Debug, PartialEq, Eq)]
pub struct PrivateKey {
    pub bytes: Vec<u8>,
}

/// The scheme that generates nothing.
pub struct DummyDKG {}

/// A transcript of the dummy scheme: bytes.
#[derive(Debug, PartialEq, Eq)]
pub struct DummyDKGTranscript {
    data: Vec<u8>,
}

impl View for DummyDKGTranscript {
    type V = Seq<u8>;

    closed spec fn view(&self) -> Seq<u8> {
        self.data@
    }
}

/// The bytes of the transcript that the dummy scheme generates: "data".
pub open spec fn default_transcript() -> Seq<u8> {
    seq![100u8, 97u8, 116u8, 97u8]
}

impl Default for DummyDKGTranscript {
    fn default() -> (trx: Self)
        ensures
            trx@ == default_transcript(),
    {
        let mut data: Vec<u8> = Vec::new();
        data.push(100);
        data.push(97);
        data.push(116);
        data.push(97);
        assert(data@ =~= default_transcript());
        Self { data }
    }
}

impl DKGTrait for DummyDKG {
    type PrivateParams = PrivateKey;

    type PublicParams = DKGSessionMetadata;

    type Transcript = DummyDKGTranscript;

    fn new_public_params(dkg_session_metadata: DKGSessionMetadata) -> (params: DKGSessionMetadata)
        ensures
            params == dkg_session_metadata,
    {
        dkg_session_metadata
    }

    /// The transcript "data", whatever the randomness and whoever deals.
    fn generate_transcript(
        randomness: &Vec<u8>,
        params: &DKGSessionMetadata,
        my_index: usize,
        sk: &PrivateKey,
    ) -> (transcript: DummyDKGTranscript)
        ensures
            transcript@ == default_transcript(),
    {
        DummyDKGTranscript::default()
    }

    /// A transcript passes if it is not empty.
    fn verify_transcript(params: &DKGSessionMetadata, trx: &DummyDKGTranscript) -> (verified: Result<
        (),
        DKGError,
    >)
        ensures
            verified == (if trx@.len() == 0 {
                Err::<(), DKGError>(DKGError::BadTranscriptLength)
            } else {
                Ok::<(), DKGError>(())
            }),
    {
        if trx.data.len() == 0 {
            Err(DKGError::BadTranscriptLength)
        } else {
            Ok(())
        }
    }

    /// The aggregate of two transcripts is the one followed by the other.
    fn aggregate_transcripts(
        params: &DKGSessionMetadata,
        base: &mut DummyDKGTranscript,
        extra: &DummyDKGTranscript,
    )
        ensures
            final(base)@ == old(base)@ + extra@,
    {
        let mut more = copy_bytes(&extra.data);
        base.data.append(&mut more);
    }

    fn serialize_transcript(trx: &DummyDKGTranscript) -> (bytes: Vec<u8>)
        ensures
            bytes@ == trx@,
    {
        copy_bytes(&trx.data)
    }

    /// The transcript that the bytes are, unless there are none.
    fn deserialize_transcript(bytes: &Vec<u8>) -> (trx: Result<DummyDKGTranscript, DKGError>)
        ensures
            bytes@.len() == 0 ==> trx == Err::<DummyDKGTranscript, DKGError>(
                DKGError::BadTranscriptLength,
            ),
            bytes@.len() > 0 ==> (trx matches Ok(t) && t@ == bytes@),
    {
        if bytes.len() == 0 {
            return Err(DKGError::BadTranscriptLength);
        }
        Ok(DummyDKGTranscript { data: copy_bytes(bytes) })
    }
}

impl DKGPrivateParamsProvider<DummyDKG> for PrivateKey {
    fn dkg_private_params(&self) -> (params: &PrivateKey)
        ensures
            params == self,
    {
        self
    }
}

} // verus!
