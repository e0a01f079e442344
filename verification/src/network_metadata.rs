//! Messages on their way to the wire, each with the metadata that the node
//! keeps about it. The metadata is never sent: it serves the node's own
//! bookkeeping, such as how long a message waited before it left.

use vstd::prelude::*;
use std::time::SystemTime;

verus! {

/// A point in time as the system clock gives it. Verus sees nothing of it.
#[verifier::external_type_specification]
#[verifier::external_body]
pub struct ExSystemTime(SystemTime);

/// `SystemTime::now`: the time on the system clock. Nothing is said of it:
/// two calls may give any two times.
#[verifier::external_body]
fn system_time_now() -> (now: SystemTime) {
    SystemTime::now()
}

/// The protocol that a message belongs to.
#[derive(Clone, Copy, Debug, PartialEq, Eq, Structural)]
pub enum ProtocolId {
    ConsensusRpcBcs,
    ConsensusDirectSendBcs,
    MempoolDirectSend,
    StateSyncDirectSend,
    DiscoveryDirectSend,
    HealthCheckerRpc,
    StorageServiceRpc,
    PeerMonitoringServiceRpc,
}

/// A message as it is sent along the wire.
#[derive(Clone, Debug, PartialEq, Eq)]
pub struct NetworkMessage {
    pub protocol_id: ProtocolId,
    pub priority: u8,
    pub raw_msg: Vec<u8>,
}

/// A piece of a message that is streamed in several pieces.
#[derive(Clone, Debug, PartialEq, Eq)]
pub struct StreamFragment {
    pub request_id: u32,
    pub fragment_id: u8,
    pub raw_data: Vec<u8>,
}

/// What goes over a multiplexed connection: a whole message, or a piece of
/// a streamed one.
#[derive(Clone, Debug, PartialEq, Eq)]
pub enum MultiplexMessage {
    Message(NetworkMessage),
    Stream(StreamFragment),
}

/// A simple struct that wraps a network message with metadata.
/// Note: this is not sent along the wire, it is only used internally.
#[derive(Clone, Debug, PartialEq, Eq)]
pub struct NetworkMessageWithMetadata {
    /// The metadata about the message
    message_metadata: MessageMetadata,
    /// The network message to send along the wire
    network_message: NetworkMessage,
}

impl NetworkMessageWithMetadata {
    /// The metadata and the message.
    pub closed spec fn parts(&self) -> (MessageMetadata, NetworkMessage) {
        (self.message_metadata, self.network_message)
    }

    pub fn new(message_metadata: MessageMetadata, network_message: NetworkMessage) -> (message: Self)
        ensures
            message.parts() == (message_metadata, network_message),
    {
        Self { message_metadata, network_message }
    }

    /// Converts the message into a multiplex message with metadata
    pub fn into_multiplex_message(self) -> (message: MultiplexMessageWithMetadata)
        ensures
            message.parts() == (self.parts().0, MultiplexMessage::Message(self.parts().1)),
    {
        MultiplexMessageWithMetadata::new(
            self.message_metadata,
            MultiplexMessage::Message(self.network_message),
        )
    }

    /// Consumes the message and returns the individual parts
    pub fn into_parts(self) -> (parts: (MessageMetadata, NetworkMessage))
        ensures
            parts == self.parts(),
    {
        (self.message_metadata, self.network_message)
    }

    /// Returns a reference to the network message
    pub fn network_message(&self) -> (message: &NetworkMessage)
        ensures
            *message == self.parts().1,
    {
        &self.network_message
    }
}

/// A simple struct that wraps a multiplex message with metadata.
/// Note: this is not sent along the wire, it is only used internally.
#[derive(Clone, Debug, PartialEq, Eq)]
pub struct MultiplexMessageWithMetadata {
    /// The metadata about the message
    message_metadata: MessageMetadata,
    /// The multiplex message to send along the wire
    multiplex_message: MultiplexMessage,
}

impl MultiplexMessageWithMetadata {
    /// The metadata and the message.
    pub closed spec fn parts(&self) -> (MessageMetadata, MultiplexMessage) {
        (self.message_metadata, self.multiplex_message)
    }

    pub fn new(message_metadata: MessageMetadata, multiplex_message: MultiplexMessage) -> (message:
        Self)
        ensures
            message.parts() == (message_metadata, multiplex_message),
    {
        Self { message_metadata, multiplex_message }
    }

    /// Consumes the message and returns the individual parts
    pub fn into_parts(self) -> (parts: (MessageMetadata, MultiplexMessage))
        ensures
            parts == self.parts(),
    {
        (self.message_metadata, self.multiplex_message)
    }
}

/// A simple enum to track the type of message being sent
#[derive(Clone, Copy, Debug, PartialEq, Eq, Structural)]
pub enum MessageType {
    /// A regular message that fits into a single chunk
    RegularMessage,
    /// The head (first fragment) of a streamed message
    StreamedMessageHead,
    /// A fragment of a streamed message (not the head or tail)
    StreamedMessageFragment,
    /// The tail (last fragment) of a streamed message
    StreamedMessageTail,
}

/// A struct holding metadata about each message.
/// Note: this is not sent along the wire, it is only used internally.
#[derive(Clone, Debug, PartialEq, Eq)]
pub struct MessageMetadata {
    /// The protocol ID for the message
    protocol_id: ProtocolId,
    /// The type of the message being sent
    message_type: MessageType,
    /// The time at which the message was sent by the application
    application_send_time: Option<SystemTime>,
    /// The time at which the message was sent along the network wire
    network_wire_send_time: Option<SystemTime>,
}

/// What a `MessageMetadata` holds.
pub struct MessageMetadataView {
    pub protocol_id: ProtocolId,
    pub message_type: MessageType,
    pub application_send_time: Option<SystemTime>,
    pub network_wire_send_time: Option<SystemTime>,
}

impl View for MessageMetadata {
    type V = MessageMetadataView;

    closed spec fn view(&self) -> MessageMetadataView {
        MessageMetadataView {
            protocol_id: self.protocol_id,
            message_type: self.message_type,
            application_send_time: self.application_send_time,
            network_wire_send_time: self.network_wire_send_time,
        }
    }
}

impl MessageMetadata {
    pub fn new(protocol_id: ProtocolId, application_send_time: Option<SystemTime>) -> (metadata: Self)
        ensures
            metadata@ == (MessageMetadataView {
                protocol_id,
                message_type: MessageType::RegularMessage,
                application_send_time,
                network_wire_send_time: None,
            }),
    {
        Self {
            protocol_id,
            application_send_time,
            message_type: MessageType::RegularMessage,
            network_wire_send_time: None,
        }
    }

    /// Returns the protocol of the message
    pub fn protocol_id(&self) -> (id: ProtocolId)
        ensures
            id == self@.protocol_id,
    {
        self.protocol_id
    }

    /// Returns the type of the message
    pub fn message_type(&self) -> (message_type: MessageType)
        ensures
            message_type == self@.message_type,
    {
        self.message_type
    }

    /// Returns the time at which the message was first sent by the application
    pub fn application_send_time(&self) -> (time: Option<SystemTime>)
        ensures
            time == self@.application_send_time,
    {
        self.application_send_time
    }

    /// Returns the time at which the message was sent along the wire
    pub fn network_wire_send_time(&self) -> (time: Option<SystemTime>)
        ensures
            time == self@.network_wire_send_time,
    {
        self.network_wire_send_time
    }

    /// Updates the network wire send time
    pub fn update_network_send_time(&mut self)
        ensures
            final(self)@.network_wire_send_time is Some,
            final(self)@.protocol_id == old(self)@.protocol_id,
            final(self)@.message_type == old(self)@.message_type,
            final(self)@.application_send_time == old(self)@.application_send_time,
    {
        self.set_network_send_time(system_time_now());
    }

    /// Sets the network wire send time to `now`
    pub fn set_network_send_time(&mut self, now: SystemTime)
        ensures
            final(self)@ == (MessageMetadataView { network_wire_send_time: Some(now), ..old(self)@ }),
    {
        self.network_wire_send_time = Some(now);
    }

    /// Updates the message type
    pub fn update_message_type(&mut self, message_type: MessageType)
        ensures
            final(self)@ == (MessageMetadataView { message_type, ..old(self)@ }),
    {
        self.message_type = message_type;
    }
}

} // verus!
