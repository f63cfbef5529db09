//! The packet: the internal envelope built for one inbound data frame. A
//! packet lives only for the single routing attempt; it is never persisted.

use vstd::prelude::*;

verus! {

/// The identity a packet carries before a destination was chosen.
pub const NIL_IDENTITY: u128 = 0;

/// Abstract value of a packet: every field as a plain mathematical value.
#[verifier::ext_equal]
pub ghost struct PacketModel {
    pub message_uuid: u128,
    pub timestamp: u64,
    pub event_type: Seq<char>,
    pub payload: Seq<char>,
    pub identifier_source: u128,
    pub identifier_destination: u128,
    pub hash: Seq<char>,
    pub priority: u8,
    pub ttl: u64,
    pub consumed: bool,
}

/// One envelope per inbound data frame. `payload` holds the payload value as
/// its structured-data text, passed through unmodified. `hash`, `priority`,
/// `ttl` and `consumed` are carried but never gate routing.
pub struct Packet {
    pub message_uuid: u128,
    pub timestamp: u64,
    pub event_type: String,
    pub payload: String,
    pub identifier_source: u128,
    pub identifier_destination: u128,
    pub hash: String,
    pub priority: u8,
    pub ttl: u64,
    pub consumed: bool,
}

impl View for Packet {
    type V = PacketModel;

    open spec fn view(&self) -> PacketModel {
        PacketModel {
            message_uuid: self.message_uuid,
            timestamp: self.timestamp,
            event_type: self.event_type@,
            payload: self.payload@,
            identifier_source: self.identifier_source,
            identifier_destination: self.identifier_destination,
            hash: self.hash@,
            priority: self.priority,
            ttl: self.ttl,
            consumed: self.consumed,
        }
    }
}

/// The abstract packet a data frame gives rise to: a fresh message identity
/// and ingestion timestamp, the frame's own event type, payload, claimed
/// source and time-to-live, the priority reduced to its low byte, the
/// placeholder integrity tag, no destination yet, and not consumed.
pub open spec fn fresh_packet_model(
    message_uuid: u128,
    timestamp: u64,
    event_type: Seq<char>,
    payload: Seq<char>,
    identifier_source: u128,
    priority: u64,
    ttl: u64,
) -> PacketModel {
    PacketModel {
        message_uuid,
        timestamp,
        event_type,
        payload,
        identifier_source,
        identifier_destination: NIL_IDENTITY,
        hash: "not-yet-implemented"@,
        priority: (priority % 256) as u8,
        ttl,
        consumed: false,
    }
}

impl Packet {
    /// Build the envelope for one data frame. No real integrity tag is
    /// computed: the field carries a placeholder constant.
    pub fn build(
        message_uuid: u128,
        timestamp: u64,
        event_type: String,
        payload: String,
        identifier_source: u128,
        priority: u64,
        ttl: u64,
    ) -> (p: Packet)
        ensures
            p@ == fresh_packet_model(
                message_uuid,
                timestamp,
                event_type@,
                payload@,
                identifier_source,
                priority,
                ttl,
            ),
    {
        let p = Packet {
            message_uuid,
            timestamp,
            event_type,
            payload,
            identifier_source,
            identifier_destination: NIL_IDENTITY,
            hash: "not-yet-implemented".to_owned(),
            priority: (priority % 256) as u8,
            ttl,
            consumed: false,
        };
        proof {
            assert(p@ =~= fresh_packet_model(
                message_uuid,
                timestamp,
                p.event_type@,
                p.payload@,
                identifier_source,
                priority,
                ttl,
            ));
        }
        p
    }

    /// Record the consumer chosen for this packet; every other field is kept.
    pub fn assign_destination(&mut self, destination: u128)
        ensures
            final(self)@ == (PacketModel { identifier_destination: destination, ..old(self)@ }),
    {
        self.identifier_destination = destination;
        proof {
            assert(self@ =~= PacketModel {
                identifier_destination: destination,
                ..old(self)@
            });
        }
    }
}

} // verus!
