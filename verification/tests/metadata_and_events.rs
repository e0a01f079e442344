use block_stm::account_config::is_aptos_governance_create_proposal_event;
use block_stm::network_metadata::{
    MessageMetadata, MessageType, MultiplexMessage, MultiplexMessageWithMetadata, NetworkMessage,
    NetworkMessageWithMetadata, ProtocolId,
};
use block_stm::txn_provider::{BlockingTransaction, BlockingTransactionStatus, BlockingTxnsProvider};
use std::time::{Duration, SystemTime};

fn message() -> NetworkMessage {
    NetworkMessage { protocol_id: ProtocolId::MempoolDirectSend, priority: 0, raw_msg: vec![1, 2] }
}

#[test]
fn governance_proposal_events_are_recognized() {
    assert!(is_aptos_governance_create_proposal_event(
        "0x1::aptos_governance::CreateProposal"
    ));
    assert!(is_aptos_governance_create_proposal_event(
        "0x1::aptos_governance::CreateProposalEvent"
    ));
    assert!(!is_aptos_governance_create_proposal_event("0x1::aptos_governance::Vote"));
    assert!(!is_aptos_governance_create_proposal_event(
        "0x1::aptos_governance::CreateProposalEvents"
    ));
    assert!(!is_aptos_governance_create_proposal_event(""));
    assert!(!is_aptos_governance_create_proposal_event(
        "0x2::aptos_governance::CreateProposal"
    ));
}

#[test]
fn new_metadata_is_of_a_regular_message_not_yet_sent() {
    let at = SystemTime::UNIX_EPOCH + Duration::from_secs(5);
    let m = MessageMetadata::new(ProtocolId::ConsensusRpcBcs, Some(at));
    assert_eq!(m.protocol_id(), ProtocolId::ConsensusRpcBcs);
    assert_eq!(m.message_type(), MessageType::RegularMessage);
    assert_eq!(m.application_send_time(), Some(at));
    assert_eq!(m.network_wire_send_time(), None);
    let n = MessageMetadata::new(ProtocolId::HealthCheckerRpc, None);
    assert_eq!(n.application_send_time(), None);
}

#[test]
fn metadata_updates_change_one_field_each() {
    let at = SystemTime::UNIX_EPOCH + Duration::from_secs(5);
    let mut m = MessageMetadata::new(ProtocolId::ConsensusRpcBcs, Some(at));
    m.update_message_type(MessageType::StreamedMessageTail);
    assert_eq!(m.message_type(), MessageType::StreamedMessageTail);
    assert_eq!(m.application_send_time(), Some(at));
    assert_eq!(m.network_wire_send_time(), None);
    let before = SystemTime::now();
    m.update_network_send_time();
    let sent = m.network_wire_send_time().unwrap();
    assert!(sent >= before);
    assert_eq!(m.message_type(), MessageType::StreamedMessageTail);
    assert_eq!(m.application_send_time(), Some(at));
    assert_eq!(m.protocol_id(), ProtocolId::ConsensusRpcBcs);
    let later = SystemTime::UNIX_EPOCH + Duration::from_secs(9);
    m.set_network_send_time(later);
    assert_eq!(m.network_wire_send_time(), Some(later));
}

#[test]
fn messages_keep_their_parts() {
    let metadata = MessageMetadata::new(ProtocolId::MempoolDirectSend, None);
    let wrapped = NetworkMessageWithMetadata::new(metadata.clone(), message());
    assert_eq!(wrapped.network_message(), &message());
    let multiplex = wrapped.clone().into_multiplex_message();
    assert_eq!(wrapped.into_parts(), (metadata.clone(), message()));
    assert_eq!(
        multiplex.clone().into_parts(),
        (metadata.clone(), MultiplexMessage::Message(message()))
    );
    let direct = MultiplexMessageWithMetadata::new(
        metadata.clone(),
        MultiplexMessage::Message(message()),
    );
    assert_eq!(direct, multiplex);
}

#[test]
fn blocking_transaction_waits_at_first() {
    let slot: BlockingTransaction<u64> = BlockingTransaction::new();
    assert!(matches!(slot.txn, BlockingTransactionStatus::Waiting));
    let other: BlockingTransaction<u64> = Default::default();
    assert!(matches!(other.txn, BlockingTransactionStatus::Waiting));
}

#[test]
fn provider_hands_out_what_arrived() {
    let mut provider: BlockingTxnsProvider<String> = BlockingTxnsProvider::new(3);
    assert_eq!(provider.num_txns(), 3);
    assert!(!provider.is_ready(0));
    assert!(!provider.is_ready(3));
    provider.set_txn(2, "c".to_string());
    provider.set_txn(0, "a".to_string());
    assert!(provider.is_ready(0));
    assert!(!provider.is_ready(1));
    assert_eq!(provider.get_txn(2), "c");
    provider.set_txn(1, "b".to_string());
    assert_eq!(provider.to_vec(), vec!["a".to_string(), "b".to_string(), "c".to_string()]);
}

#[test]
fn empty_provider_has_nothing() {
    let provider: BlockingTxnsProvider<u8> = BlockingTxnsProvider::new(0);
    assert_eq!(provider.num_txns(), 0);
    assert!(provider.to_vec().is_empty());
}
