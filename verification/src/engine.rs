//! The ingress engine: what the broker decides for one decoded frame. A
//! frame bearing the role marker mutates the registry; any other frame is a
//! data frame, for which the engine builds a packet, picks one eligible
//! consumer uniformly at random, and hands back the delivery text. The
//! embedding program does the socket reads and writes and feeds each frame
//! text through `handle_frame`.

use vstd::prelude::*;

use crate::ident::fresh_identity;
use crate::ident::get_curent_timestamp;
use crate::ident::parse_identity;
use crate::ident::uuid_of_text;
use crate::json::frame_fields;
use crate::json::read_frame_fields;
use crate::packet::Packet;
use crate::packet::PacketModel;
use crate::packet::fresh_packet_model;
use crate::registry::ConnView;
use crate::registry::Registry;
use crate::registry::Role;
use crate::registry::consumers_for;
use crate::wire::packet_text;
use crate::wire::serialize_packet;
use rand::RngExt;

verus! {

/// The fields the engine reads from one decoded frame, each as a plain
/// value. A member that is missing, or not of the kind the contract asks
/// for, is absent; `client_marker_present` records whether the frame bears
/// the role marker at all, of whatever kind.
pub struct RawFields {
    pub client_marker_present: bool,
    pub client_type: Option<String>,
    pub consumer_type: Option<String>,
    pub event_type: Option<String>,
    pub payload: Option<String>,
    pub identifier_source: Option<String>,
    pub priority: Option<u64>,
    pub ttl: Option<u64>,
}

/// Abstract value of the extracted fields of one frame.
#[verifier::ext_equal]
pub ghost struct FrameModel {
    pub client_marker_present: bool,
    pub client_type: Option<Seq<char>>,
    pub consumer_type: Option<Seq<char>>,
    pub event_type: Option<Seq<char>>,
    pub payload: Option<Seq<char>>,
    pub identifier_source: Option<Seq<char>>,
    pub priority: Option<u64>,
    pub ttl: Option<u64>,
}

impl View for RawFields {
    type V = FrameModel;

    open spec fn view(&self) -> FrameModel {
        FrameModel {
            client_marker_present: self.client_marker_present,
            client_type: match self.client_type {
                Some(s) => Some(s@),
                None => None,
            },
            consumer_type: match self.consumer_type {
                Some(s) => Some(s@),
                None => None,
            },
            event_type: match self.event_type {
                Some(s) => Some(s@),
                None => None,
            },
            payload: match self.payload {
                Some(s) => Some(s@),
                None => None,
            },
            identifier_source: match self.identifier_source {
                Some(s) => Some(s@),
                None => None,
            },
            priority: self.priority,
            ttl: self.ttl,
        }
    }
}

/// What the engine decided for one frame; the embedding program carries the
/// action out.
pub enum Outcome {
    /// The frame was malformed for this contract: drop it, log, and keep the
    /// connection open.
    DecodeError,
    /// A role frame naming some other role: nothing to do.
    Ignored,
    /// A consumer announcement: the sending connection has been
    /// reclassified under this category.
    Reclassified { category: String },
    /// A data frame that matched no consumer: drop the packet, log, inform
    /// nobody.
    NoRoute { event_type: String },
    /// A data frame routed to one consumer: write `text` on the
    /// destination's own handle.
    Deliver { destination: u128, text: String },
}

/// A data frame is well-formed when every required member is present and
/// its claimed source identity parses.
pub open spec fn data_frame_ok(f: FrameModel) -> bool {
    &&& f.event_type is Some
    &&& f.payload is Some
    &&& f.identifier_source is Some
    &&& uuid_of_text(f.identifier_source->Some_0) is Some
    &&& f.priority is Some
    &&& f.ttl is Some
}

/// Whether the frame announces the consumer role.
pub open spec fn announces_consumer(f: FrameModel) -> bool {
    f.client_marker_present && f.client_type is Some && f.client_type->Some_0 == "consumer"@
}

/// The packet a well-formed data frame is delivered as, once a destination
/// was chosen.
pub open spec fn routed_model(
    f: FrameModel,
    message_uuid: u128,
    timestamp: u64,
    destination: u128,
) -> PacketModel {
    PacketModel {
        identifier_destination: destination,
        ..fresh_packet_model(
            message_uuid,
            timestamp,
            f.event_type->Some_0,
            f.payload->Some_0,
            uuid_of_text(f.identifier_source->Some_0)->Some_0,
            f.priority->Some_0,
            f.ttl->Some_0,
        )
    }
}

/// What the engine's decision for one frame must satisfy, relating the
/// registry before (`pre`) and after (`post`), the sending connection, the
/// frame's fields, the fresh message identity and timestamp, and the
/// outcome. Every class of frame pins its outcome: a role frame whose
/// marker is not a string, a consumer announcement without a category, and
/// an ill-formed data frame are decode errors; a marker naming another
/// role is ignored; an announcement reclassifies the sender's own entry
/// and nothing else; a data frame is delivered to one consumer of its
/// category, as exactly the packet text the frame gives rise to, or
/// dropped when there is none.
pub open spec fn decision_holds(
    pre: Map<u128, ConnView>,
    post: Map<u128, ConnView>,
    source: u128,
    f: FrameModel,
    message_uuid: u128,
    timestamp: u64,
    out: Outcome,
) -> bool {
    &&& (f.client_marker_present && f.client_type is None) ==> (out is DecodeError && post == pre)
    &&& (f.client_marker_present && f.client_type is Some && f.client_type->Some_0
        != "consumer"@) ==> (out is Ignored && post == pre)
    &&& (announces_consumer(f) && f.consumer_type is None) ==> (out is DecodeError && post == pre)
    &&& (announces_consumer(f) && f.consumer_type is Some) ==> ((out
        matches Outcome::Reclassified { category } && category@ == f.consumer_type->Some_0) && (
    pre.contains_key(source) ==> post == pre.insert(
        source,
        ConnView { role: Role::Consumer, category: f.consumer_type->Some_0 },
    )) && (!pre.contains_key(source) ==> post == pre))
    &&& !f.client_marker_present ==> post == pre
    &&& (!f.client_marker_present && !data_frame_ok(f)) ==> out is DecodeError
    &&& (!f.client_marker_present && data_frame_ok(f) && (forall|id: u128| !consumers_for(
        pre,
        f.event_type->Some_0,
    ).contains(id))) ==> (out matches Outcome::NoRoute { event_type } && event_type@
        == f.event_type->Some_0)
    &&& (!f.client_marker_present && data_frame_ok(f) && (exists|id: u128| consumers_for(
        pre,
        f.event_type->Some_0,
    ).contains(id))) ==> (out matches Outcome::Deliver { destination, text } && consumers_for(
        pre,
        f.event_type->Some_0,
    ).contains(destination) && text@ == packet_text(
        routed_model(f, message_uuid, timestamp, destination),
    ))
}

/// Relies on `rand::RngExt::random_range` over the thread's generator: an
/// index below `n`, each with equal probability. Which one comes back
/// depends on the generator's state, so only the bound is stated.
#[verifier::external_body]
fn random_index(n: usize) -> (r: usize)
    requires
        n > 0,
    ensures
        r < n,
{
    rand::rng().random_range(0..n)
}

/// The candidate a draw selects: the one at the drawn index, nothing else
/// enters the choice.
pub fn pick_candidate(candidates: &Vec<u128>, draw: usize) -> (r: u128)
    requires
        draw < candidates@.len(),
    ensures
        r == candidates@[draw as int],
{
    candidates[draw]
}

/// Law: selection has no structural bias. The chosen consumer is exactly
/// the candidate at the drawn index, and over a duplicate-free candidate
/// list distinct draws select distinct consumers — so each of the N
/// eligible consumers is selected by exactly one of the N equally likely
/// draw values.
pub proof fn lemma_draws_cover_candidates(c: Seq<u128>, k1: int, k2: int)
    requires
        0 <= k1 < c.len(),
        0 <= k2 < c.len(),
        forall|i: int, j: int| 0 <= i < j < c.len() ==> c[i] != c[j],
    ensures
        (c[k1] == c[k2]) <==> k1 == k2,
{
    if k1 < k2 {
        assert(c[k1] != c[k2]);
    } else if k2 < k1 {
        assert(c[k2] != c[k1]);
    }
}

/// Decide one frame, given its extracted fields, the identity of the
/// sending connection, and a fresh message identity and timestamp for the
/// packet if one is built. The registry is touched only by a consumer
/// announcement, and only at the sender's own entry.
pub fn process_fields(
    reg: &mut Registry,
    source: u128,
    f: RawFields,
    message_uuid: u128,
    timestamp: u64,
) -> (out: Outcome)
    requires
        old(reg).wf(),
    ensures
        final(reg).wf(),
        final(reg)@.dom() == old(reg)@.dom(),
        final(reg)@.remove(source) == old(reg)@.remove(source),
        decision_holds(old(reg)@, final(reg)@, source, f@, message_uuid, timestamp, out),
{
    let RawFields {
        client_marker_present,
        client_type,
        consumer_type,
        event_type,
        payload,
        identifier_source,
        priority,
        ttl,
    } = f;
    if client_marker_present {
        match client_type {
            None => Outcome::DecodeError,
            Some(ct) => {
                let marker: String = "consumer".to_owned();
                if ct == marker {
                    match consumer_type {
                        None => Outcome::DecodeError,
                        Some(category) => {
                            let announced = category.clone();
                            reg.reclassify(source, announced);
                            proof {
                                if old(reg)@.contains_key(source) {
                                    assert(reg@.dom() =~= old(reg)@.dom());
                                    assert(reg@.remove(source) =~= old(reg)@.remove(source));
                                }
                            }
                            Outcome::Reclassified { category }
                        },
                    }
                } else {
                    Outcome::Ignored
                }
            },
        }
    } else {
        match (event_type, payload, identifier_source, priority, ttl) {
            (Some(et), Some(pl), Some(src_text), Some(prio), Some(ttl_v)) => {
                match parse_identity(src_text.as_str()) {
                    None => Outcome::DecodeError,
                    Some(src) => {
                        let candidates = reg.find_consumers(&et);
                        if candidates.len() == 0 {
                            proof {
                                assert forall|id: u128| !consumers_for(
                                    old(reg)@,
                                    f@.event_type->Some_0,
                                ).contains(id) by {
                                    if consumers_for(old(reg)@, f@.event_type->Some_0).contains(
                                        id,
                                    ) {
                                        assert(candidates@.contains(id));
                                    }
                                }
                            }
                            Outcome::NoRoute { event_type: et }
                        } else {
                            let draw = random_index(candidates.len());
                            let destination = pick_candidate(&candidates, draw);
                            proof {
                                assert(candidates@.contains(candidates@[draw as int]));
                            }
                            let mut packet = Packet::build(
                                message_uuid,
                                timestamp,
                                et,
                                pl,
                                src,
                                prio,
                                ttl_v,
                            );
                            packet.assign_destination(destination);
                            proof {
                                assert(packet@ =~= routed_model(
                                    f@,
                                    message_uuid,
                                    timestamp,
                                    destination,
                                ));
                            }
                            let text = serialize_packet(&packet);
                            Outcome::Deliver { destination, text }
                        }
                    },
                }
            },
            _ => Outcome::DecodeError,
        }
    }
}

/// Decide one inbound frame text from the connection `source`: read its
/// fields and decide. A text whose fields cannot be read is a decode error
/// and changes nothing; for any other text the decision relation holds of
/// its fields, under the fresh message identity and timestamp drawn for
/// this frame. Whatever the text, the registry keeps its invariant, no
/// connection appears or disappears, and no entry but the sender's own is
/// touched.
pub fn handle_frame(reg: &mut Registry, source: u128, text: &str) -> (out: Outcome)
    requires
        old(reg).wf(),
    ensures
        final(reg).wf(),
        final(reg)@.dom() == old(reg)@.dom(),
        final(reg)@.remove(source) == old(reg)@.remove(source),
        frame_fields(text@) is None ==> (out is DecodeError && final(reg)@ == old(reg)@),
        (frame_fields(text@) matches Some(f) ==> exists|mu: u128, ts: u64|
            decision_holds(old(reg)@, final(reg)@, source, f, mu, ts, out)),
{
    match read_frame_fields(text) {
        None => Outcome::DecodeError,
        Some(fields) => {
            let message_uuid = fresh_identity();
            let timestamp = get_curent_timestamp();
            let out = process_fields(reg, source, fields, message_uuid, timestamp);
            proof {
                assert(decision_holds(
                    old(reg)@,
                    reg@,
                    source,
                    frame_fields(text@)->Some_0,
                    message_uuid,
                    timestamp,
                    out,
                ));
            }
            out
        },
    }
}

} // verus!
