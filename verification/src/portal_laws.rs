//! What holds of every portal.

use vstd::prelude::*;

use crate::chunk::CHUNK_TOPIC;
use crate::config::{schema_dtypes, schema_names, ConfigView, FieldView};
use crate::data::{
    packet_received, packet_sent, route_of, DataPublisher, DataStream, Fingerprints, Incoming,
    OutgoingPacket, PublisherView, Route, SlotsView, ACTION_TOPIC, RTT_TOPIC, STATE_TOPIC,
};
use crate::double::Double;
use crate::dtype::carried;
use crate::error::{ErrorView, PortalResult};
use crate::field_map::emptied;
use crate::portal::{
    latest_after, lists_handlers, publisher_view, result_view, PortalAction, PortalEvent,
    PortalView, StreamKind, FRAME_VIDEO_TOPIC,
};
use crate::serialization::payload_size;
use crate::sync_model::{OutputView, SyncView};
use crate::types::{ObservationView, Role};

verus! {

/// There is a place for the latest chunk of every declared name and for the latest frame of
/// every declared track, and none for others.
pub open spec fn places_match(portal: PortalView) -> bool {
    &&& forall|k: Seq<char>| #[trigger]
        portal.chunks.contains_key(k) <==> portal.config.chunk_names().contains(k)
    &&& forall|k: Seq<char>| #[trigger]
        portal.frames.contains_key(k) <==> portal.config.all_tracks().contains(k)
}

/// Only declared tracks and chunks are published.
pub open spec fn publishers_match(portal: PortalView) -> bool {
    &&& forall|k: Seq<char>| #[trigger]
        portal.chunk_publishers.contains_key(k) ==> portal.config.chunk_names().contains(k)
    &&& forall|k: Seq<char>| #[trigger]
        portal.video_publishers.contains(k) ==> portal.config.video_tracks.contains(k)
    &&& forall|k: Seq<char>| #[trigger]
        portal.frame_video_publishers.contains(k) ==> portal.config.frame_video_names().contains(k)
}

/// After leaving a session a portal is as it was before it first joined one, but for the
/// registered methods and the schema mismatches that were already reported.
pub proof fn law_disconnect_is_fresh(portal: PortalView)
    requires
        places_match(portal),
    ensures
        portal.disconnected() == (PortalView {
            handlers: portal.handlers,
            action: SlotsView { latest: None, ..portal.action },
            state: SlotsView { latest: None, ..portal.state },
            ..PortalView::initial(portal.config)
        }),
        portal.disconnected().disconnected() == portal.disconnected(),
{
    let fresh = PortalView::initial(portal.config);
    assert(emptied(portal.chunks) =~= fresh.chunks);
    assert(emptied(portal.frames) =~= fresh.frames);
    assert(portal.disconnected().disconnected() =~= portal.disconnected());
}

/// A new portal has its places.
pub proof fn law_new_portal_has_places(config: ConfigView)
    ensures
        places_match(PortalView::initial(config)),
{
}

/// After a reconnect nothing received before can be looked at, while the connection, the
/// publishers and the registered methods stay.
pub proof fn law_reconnect_forgets_received(portal: PortalView)
    ensures
        ({
            let after = portal.reconnected();
            &&& after.observation is None
            &&& after.action.latest is None
            &&& after.state.latest is None
            &&& after.peer is None
            &&& forall|k: Seq<char>|
                portal.chunks.contains_key(k) ==> after.chunks.contains_key(k)
                    && #[trigger] after.chunks[k] is None
            &&& forall|k: Seq<char>|
                portal.frames.contains_key(k) ==> after.frames.contains_key(k)
                    && #[trigger] after.frames[k] is None
            &&& after.sync_buffer matches Some(sb) ==> sb.states.len() == 0
            &&& after.connected == portal.connected
            &&& after.participant == portal.participant
            &&& after.receivers == portal.receivers
            &&& after.video_publishers == portal.video_publishers
            &&& after.frame_video_publishers == portal.frame_video_publishers
            &&& after.chunk_publishers == portal.chunk_publishers
            &&& after.state_publisher == portal.state_publisher
            &&& after.action_publisher == portal.action_publisher
            &&& after.handlers == portal.handlers
        }),
{
}

/// The first participant heard of stays the other end, whoever is heard of later.
pub proof fn law_peer_is_sticky(portal: PortalView, first: Seq<char>, second: Seq<char>)
    ensures
        portal.latched(first).latched(second) == portal.latched(first),
        portal.peer is None ==> portal.latched(first).peer == Some(first),
{
    assert(portal.latched(first).latched(second) =~= portal.latched(first));
}

/// Only the departure of the other end itself makes a portal forget it, and then the next
/// participant heard of takes its place.
pub proof fn law_peer_departs(portal: PortalView, identity: Seq<char>, next: Seq<char>)
    ensures
        portal.peer != Some(identity) ==> portal.departed(identity) == portal,
        portal.peer == Some(identity) ==> portal.departed(identity).latched(next).peer == Some(next),
{
    if portal.peer != Some(identity) {
        assert(portal.departed(identity) =~= portal);
    }
}

/// No event touches the configuration, the connection, the publishers or the registered
/// methods.
pub proof fn law_events_keep_setup(portal: PortalView, event: PortalEvent)
    ensures
        ({
            let after = portal.after_event(event);
            &&& after.config == portal.config
            &&& after.connected == portal.connected
            &&& after.participant == portal.participant
            &&& after.video_publishers == portal.video_publishers
            &&& after.frame_video_publishers == portal.frame_video_publishers
            &&& after.chunk_publishers == portal.chunk_publishers
            &&& after.state_publisher == portal.state_publisher
            &&& after.action_publisher == portal.action_publisher
            &&& after.handlers == portal.handlers
        }),
{
}

/// The two roles complement each other: each receives the stream that the other one sends and
/// ignores its own.
pub proof fn law_roles_complement()
    ensures
        route_of(Role::Operator, STATE_TOPIC@) == Route::Stream(DataStream::State),
        route_of(Role::Robot, STATE_TOPIC@) == Route::Ignored,
        route_of(Role::Robot, ACTION_TOPIC@) == Route::Stream(DataStream::Action),
        route_of(Role::Operator, ACTION_TOPIC@) == Route::Ignored,
        forall|role: Role| #[trigger] route_of(role, RTT_TOPIC@) == Route::Rtt,
{
    reveal_strlit("portal_state");
    reveal_strlit("portal_action");
    reveal_strlit("portal_rtt");
    assert(STATE_TOPIC@.len() == 12);
    assert(ACTION_TOPIC@.len() == 13);
    assert(RTT_TOPIC@.len() == 10);
}

/// What one end sends, the other end receives: a packet that a publisher made is read by a
/// receiver with the same schema as one row with the timestamp it was stamped with and, field
/// by field, the values that were sent or carried forward, each as its declared type carries
/// it.
pub proof fn law_row_crosses(
    publisher: PublisherView,
    values: Map<Seq<char>, Double>,
    timestamp_us: Option<u64>,
    in_reply_to_ts_us: Option<u64>,
    now_us: u64,
    packet: OutgoingPacket,
    stream: DataStream,
    slots: SlotsView,
    incoming: Incoming,
)
    requires
        publisher.last_values.len() == publisher.schema.len(),
        packet_sent(publisher, values, timestamp_us, in_reply_to_ts_us, now_us, packet),
        packet_received(
            stream,
            publisher.schema,
            packet.payload@,
            packet.topic@,
            Some(Fingerprints { local: publisher.fingerprint, carried: packet.fingerprint }),
            slots,
            incoming,
        ),
    ensures
        ({
            &&& incoming matches Incoming::Row(s, sample)
            &&& s == stream
            &&& sample.timestamp_us == match timestamp_us {
                Some(ts) => ts,
                None => now_us,
            }
            &&& sample.values@.len() == publisher.schema.len()
            &&& forall|i: int|
                0 <= i < publisher.schema.len() ==> carried(
                    publisher.schema[i].dtype,
                    publisher.after_row(values).last_values[i],
                    #[trigger] sample.values@[i],
                )
        }),
{
    let dtypes = schema_dtypes(publisher.schema);
    let sent = publisher.after_row(values).last_values;
    let stamp = match timestamp_us {
        Some(ts) => ts,
        None => now_us,
    };
    assert(sent.len() == dtypes.len());
    crate::serialization::lemma_row_len(stamp, sent, dtypes);
    assert(incoming is Row);
    let sample = incoming->Row_1;
    crate::serialization::law_row_survives(
        stamp,
        sent,
        dtypes,
        sample.timestamp_us,
        sample.values@,
    );
    assert forall|i: int| 0 <= i < publisher.schema.len() implies carried(
        publisher.schema[i].dtype,
        sent[i],
        #[trigger] sample.values@[i],
    ) by {
        assert(carried(dtypes[i], sent[i], sample.values@[i]));
    }
}

/// Every packet carries the fingerprint of its sender's schema: a receiver whose schema has
/// another fingerprint takes it for no row, whatever its bytes are.
pub proof fn law_foreign_packet_is_no_row(
    publisher: PublisherView,
    values: Map<Seq<char>, Double>,
    timestamp_us: Option<u64>,
    in_reply_to_ts_us: Option<u64>,
    now_us: u64,
    packet: OutgoingPacket,
    stream: DataStream,
    schema: Seq<FieldView>,
    local: u32,
    slots: SlotsView,
    incoming: Incoming,
)
    requires
        local != publisher.fingerprint,
        packet_sent(publisher, values, timestamp_us, in_reply_to_ts_us, now_us, packet),
        packet_received(
            stream,
            schema,
            packet.payload@,
            packet.topic@,
            Some(Fingerprints { local, carried: packet.fingerprint }),
            slots,
            incoming,
        ),
    ensures
        incoming is Mismatch,
{
}

/// A packet of another schema is dropped: it comes out as no row, and what was received before,
/// the synchronisation buffer and everything else but the list of schemas that were reported,
/// and the other end if it was not known, stay as they are.
pub proof fn law_other_schema_is_dropped(
    portal: PortalView,
    payload: Vec<u8>,
    topic: String,
    participant: Option<String>,
    fingerprints: Fingerprints,
    action: PortalAction,
)
    requires
        fingerprints.local != fingerprints.carried,
        route_of(portal.config.role, topic@) != Route::Rtt,
        portal.action_for(
            PortalEvent::DataReceived {
                payload,
                topic: Some(topic),
                participant,
                fingerprints: Some(fingerprints),
            },
            action,
        ),
    ensures
        ({
            let after = portal.after_event(
                PortalEvent::DataReceived {
                    payload,
                    topic: Some(topic),
                    participant,
                    fingerprints: Some(fingerprints),
                },
            );
            &&& action matches PortalAction::Deliver(incoming)
            &&& incoming is Mismatch || incoming is Ignored
            &&& after.action.latest == portal.action.latest
            &&& after.state.latest == portal.state.latest
            &&& after == (PortalView {
                action: after.action,
                state: after.state,
                peer: after.peer,
                ..portal
            })
        }),
{
}

/// What was not declared is refused as unknown: a chunk to an operator, a track to anyone.
pub proof fn law_undeclared_is_unknown(portal: PortalView, name: Seq<char>)
    requires
        places_match(portal),
        publishers_match(portal),
    ensures
        portal.config.role == Role::Operator && !portal.config.chunk_names().contains(name) ==> {
            &&& !portal.chunk_publishers.contains_key(name)
            &&& portal.chunk_refusal(name) == ErrorView::UnknownChunk(name)
        },
        !portal.config.all_tracks().contains(name) ==> {
            &&& !portal.video_publishers.contains(name)
            &&& !portal.frame_video_publishers.contains(name)
            &&& portal.video_refusal(name) == ErrorView::UnknownVideoTrack(name)
        },
{
    let media = portal.config.video_tracks;
    let images = portal.config.frame_video_names();
    if media.contains(name) {
        let i = choose|i: int| 0 <= i < media.len() && media[i] == name;
        assert(portal.config.all_tracks()[i] == name);
    }
    if images.contains(name) {
        let i = choose|i: int| 0 <= i < images.len() && images[i] == name;
        assert(portal.config.all_tracks()[media.len() + i] == name);
    }
}

/// An operator with no publisher for a declared track is told its role, anyone else that the
/// track is unknown.
pub proof fn law_refusals_name_the_mistake(portal: PortalView, track: Seq<char>)
    ensures
        portal.config.role == Role::Robot ==> portal.video_refusal(track)
            == ErrorView::UnknownVideoTrack(track),
        !portal.config.all_tracks().contains(track) ==> portal.video_refusal(track)
            == ErrorView::UnknownVideoTrack(track),
        portal.config.role == Role::Operator && portal.config.all_tracks().contains(track)
            ==> portal.video_refusal(track) == ErrorView::WrongRole(Role::Operator),
{
}

/// A call that names its destination goes there, whoever else is in the session and whoever was
/// taken for the other end, as long as the session was joined.
pub proof fn law_destination_wins(portal: PortalView, id: Seq<char>, remotes: Seq<Seq<char>>)
    ensures
        portal.participant ==> portal.rpc_target(Some(id), remotes) == Ok::<Seq<char>, ErrorView>(
            id,
        ),
        !portal.participant ==> portal.rpc_target(Some(id), remotes) == Err::<
            Seq<char>,
            ErrorView,
        >(ErrorView::NotConnected),
{
}

/// A call without a destination goes to the other end once it is known, whoever else is in the
/// session.
pub proof fn law_known_peer_is_called(
    portal: PortalView,
    peer: Seq<char>,
    remotes: Seq<Seq<char>>,
)
    requires
        portal.peer == Some(peer),
    ensures
        portal.resolved_peer(remotes) == Ok::<Seq<char>, ErrorView>(peer),
        portal.participant ==> portal.rpc_target(None, remotes) == Ok::<Seq<char>, ErrorView>(
            peer,
        ),
        !portal.participant ==> portal.rpc_target(None, remotes) == Err::<Seq<char>, ErrorView>(
            ErrorView::NotConnected,
        ),
{
}

/// As long as the other end is not known, a call without a destination goes to the only other
/// participant; with none or with several there is nobody to call, and without a connection there
/// is no call.
pub proof fn law_only_remote_is_called(portal: PortalView, remotes: Seq<Seq<char>>)
    requires
        portal.peer is None,
    ensures
        !portal.connected ==> portal.resolved_peer(remotes) == Err::<Seq<char>, ErrorView>(
            ErrorView::NotConnected,
        ),
        portal.connected && remotes.len() == 0 ==> portal.resolved_peer(remotes) == Err::<
            Seq<char>,
            ErrorView,
        >(ErrorView::NoPeer),
        portal.connected && remotes.len() == 1 ==> portal.resolved_peer(remotes) == Ok::<
            Seq<char>,
            ErrorView,
        >(remotes[0]),
        portal.connected && remotes.len() > 1 ==> portal.resolved_peer(remotes) == Err::<
            Seq<char>,
            ErrorView,
        >(ErrorView::AmbiguousPeer),
        portal.connected && portal.participant && remotes.len() == 1 ==> portal.rpc_target(
            None,
            remotes,
        ) == Ok::<Seq<char>, ErrorView>(remotes[0]),
        portal.rpc_target(None, remotes) matches Ok(id) ==> portal.connected && portal.participant
            && remotes == seq![id],
        portal.resolved_peer(remotes) matches Err(e) ==> portal.rpc_target(None, remotes) == Err::<
            Seq<char>,
            ErrorView,
        >(e),
{
}

/// An operator that puts observations together reads the frames of every declared video track
/// that it is subscribed to, under the name of that track, and of no other.
pub proof fn law_declared_track_is_received(
    portal: PortalView,
    track_name: String,
    participant: String,
    action: PortalAction,
)
    requires
        portal.config.role == Role::Operator,
        portal.config.video_tracks.contains(track_name@),
        portal.sync_buffer is Some,
    ensures
        ({
            let event = PortalEvent::TrackSubscribed { video: true, track_name, participant };
            let after = portal.after_event(event);
            &&& portal.action_for(event, action) <==> (action matches PortalAction::Receive {
                track_name: name,
            } && name@ == track_name@)
            &&& after.receivers.contains(track_name@)
            &&& forall|k: Seq<char>|
                k != track_name@ ==> (#[trigger] after.receivers.contains(k)
                    <==> portal.receivers.contains(k))
            &&& after.peer == match portal.peer {
                Some(id) => Some(id),
                None => Some(participant@),
            }
            &&& after == (PortalView {
                receivers: after.receivers,
                peer: after.peer,
                ..portal
            })
        }),
{
}

/// A track that is no video, that was not declared, that a robot is subscribed to or that there is
/// no use for yet is passed over. Only the last may tell who the other end is.
pub proof fn law_other_track_is_passed_over(
    portal: PortalView,
    video: bool,
    track_name: String,
    participant: String,
    action: PortalAction,
)
    requires
        !video || portal.config.role != Role::Operator || !portal.config.video_tracks.contains(
            track_name@,
        ) || portal.sync_buffer is None,
    ensures
        ({
            let event = PortalEvent::TrackSubscribed { video, track_name, participant };
            let after = portal.after_event(event);
            &&& portal.action_for(event, action) <==> action is Nothing
            &&& after == (PortalView { peer: after.peer, ..portal })
            &&& !video || portal.config.role != Role::Operator
                || !portal.config.video_tracks.contains(track_name@) ==> after.peer == portal.peer
        }),
{
}

/// A name becomes one whose frames are read only together with the request to read them, for a
/// declared video track that an operator is subscribed to; and no event makes it cease to be one.
pub proof fn law_receivers_are_asked_for(
    portal: PortalView,
    event: PortalEvent,
    action: PortalAction,
    name: Seq<char>,
)
    requires
        portal.action_for(event, action),
    ensures
        portal.receivers.contains(name) ==> portal.after_event(event).receivers.contains(name),
        !portal.receivers.contains(name) && portal.after_event(event).receivers.contains(name) ==> {
            &&& action matches PortalAction::Receive { track_name }
            &&& track_name@ == name
            &&& event matches PortalEvent::TrackSubscribed { video, track_name: subscribed, .. }
            &&& video
            &&& subscribed@ == name
            &&& portal.config.role == Role::Operator
            &&& portal.config.video_tracks.contains(name)
            &&& portal.sync_buffer is Some
        },
        action matches PortalAction::Receive { track_name } ==> portal.after_event(
            event,
        ).receivers.contains(track_name@),
{
}

/// Every packet with a topic is delivered as what it is: a row only on the topic that the role
/// receives, a round trip on its own topic, and anything else as nothing. One without a topic is
/// passed over.
pub proof fn law_packet_is_delivered(
    portal: PortalView,
    payload: Vec<u8>,
    topic: Option<String>,
    participant: Option<String>,
    fingerprints: Option<Fingerprints>,
    action: PortalAction,
)
    requires
        portal.action_for(
            PortalEvent::DataReceived { payload, topic, participant, fingerprints },
            action,
        ),
    ensures
        ({
            let after = portal.after_event(
                PortalEvent::DataReceived { payload, topic, participant, fingerprints },
            );
            let same_schema = fingerprints matches Some(f) ==> f.local == f.carried;
            match topic {
                None => action is Nothing && after == portal,
                Some(topic) => {
                    let role = portal.config.role;
                    let states = topic@ == STATE_TOPIC@ && role == Role::Operator;
                    let actions = topic@ == ACTION_TOPIC@ && role == Role::Robot;
                    let ours = topic@ == RTT_TOPIC@ || states || actions;
                    &&& action matches PortalAction::Deliver(incoming)
                    &&& incoming is Rtt <==> topic@ == RTT_TOPIC@
                    &&& incoming is Ignored <==> !ours
                    &&& incoming matches Incoming::Row(stream, _) ==> {
                        &&& stream == DataStream::State <==> states
                        &&& stream == DataStream::Action <==> actions
                    }
                    &&& states && same_schema ==> (incoming is Row <==> payload@.len() == 8
                        + payload_size(schema_dtypes(portal.config.state_schema)))
                    &&& actions && same_schema ==> (incoming is Row <==> payload@.len() == 8
                        + payload_size(schema_dtypes(portal.config.action_schema)))
                    &&& incoming is Mismatch <==> (states || actions) && !same_schema
                    &&& after.peer == if ours && portal.peer is None && participant is Some {
                        Some(participant->0@)
                    } else {
                        portal.peer
                    }
                    &&& after.action.latest == portal.action.latest
                    &&& after.state.latest == portal.state.latest
                    &&& after == (PortalView {
                        action: after.action,
                        state: after.state,
                        peer: after.peer,
                        ..portal
                    })
                },
            }
        }),
{
    law_roles_complement();
}

/// Robots take streams of chunks, operators take streams of frames once they declared a track for
/// them, and nothing else is taken. Being offered a stream changes nothing.
pub proof fn law_streams_are_taken(portal: PortalView, topic: String, action: PortalAction)
    ensures
        ({
            let event = PortalEvent::ByteStreamOpened { topic };
            let chunk = portal.config.role == Role::Robot && topic@ == CHUNK_TOPIC@;
            let frame = portal.config.role == Role::Operator && topic@ == FRAME_VIDEO_TOPIC@
                && portal.config.frame_video_tracks.len() > 0;
            &&& portal.action_for(event, action) <==> action == if chunk {
                PortalAction::Take(StreamKind::Chunk)
            } else if frame {
                PortalAction::Take(StreamKind::Frame)
            } else {
                PortalAction::Nothing
            }
            &&& portal.after_event(event) == portal
        }),
{
}

/// A stream that was taken is read, but for a frame that there is no use for yet; and whoever sent
/// what is read is the other end if none was known.
pub proof fn law_taken_streams_are_read(
    portal: PortalView,
    kind: StreamKind,
    participant: String,
    action: PortalAction,
)
    ensures
        ({
            let event = PortalEvent::StreamTaken { kind, participant };
            let after = portal.after_event(event);
            let wanted = kind == StreamKind::Chunk || portal.sync_buffer is Some;
            &&& portal.action_for(event, action) <==> action == if wanted {
                PortalAction::Read(kind)
            } else {
                PortalAction::Nothing
            }
            &&& after.peer == if wanted && portal.peer is None {
                Some(participant@)
            } else {
                portal.peer
            }
            &&& after == (PortalView { peer: after.peer, ..portal })
        }),
{
}

/// A participant that leaves is no longer the other end if it was, and everything else stays. Of
/// events that are of no concern nothing is made.
pub proof fn law_departure_is_noted(portal: PortalView, identity: String, action: PortalAction)
    ensures
        ({
            let event = PortalEvent::ParticipantDisconnected { identity };
            let after = portal.after_event(event);
            &&& portal.action_for(event, action) <==> action is Nothing
            &&& after.peer is None <==> portal.peer is None || portal.peer == Some(identity@)
            &&& after.peer is Some ==> after.peer == portal.peer
            &&& after == (PortalView { peer: after.peer, ..portal })
        }),
        portal.action_for(PortalEvent::Reconnected, action) <==> action is Nothing,
        portal.action_for(PortalEvent::Other, action) <==> action is Nothing,
        portal.after_event(PortalEvent::Other) == portal,
        portal.after_event(PortalEvent::Reconnected) == portal.reconnected(),
{
    let after = portal.after_event(PortalEvent::ParticipantDisconnected { identity });
    assert(after =~= (PortalView { peer: after.peer, ..portal }));
}

/// A portal that was never connected has no connection, sends and receives nothing, knows nobody
/// and holds nothing.
pub proof fn law_new_portal_is_idle(config: ConfigView)
    ensures
        ({
            let portal = PortalView::initial(config);
            &&& portal.config == config
            &&& !portal.connected
            &&& !portal.participant
            &&& portal.peer is None
            &&& portal.state_publisher is None
            &&& portal.action_publisher is None
            &&& portal.sync_buffer is None
            &&& portal.observation is None
            &&& portal.action.latest is None
            &&& portal.state.latest is None
            &&& portal.action.warned_mismatches.len() == 0
            &&& portal.state.warned_mismatches.len() == 0
            &&& forall|k: Seq<char>|
                {
                    &&& !#[trigger] portal.receivers.contains(k)
                    &&& !portal.video_publishers.contains(k)
                    &&& !portal.frame_video_publishers.contains(k)
                    &&& !portal.chunk_publishers.contains_key(k)
                    &&& !portal.handlers.contains_key(k)
                    &&& portal.chunks.contains_key(k) ==> portal.chunks[k] is None
                    &&& portal.frames.contains_key(k) ==> portal.frames[k] is None
                }
        }),
{
}

/// A portal that left its session is idle: it has no connection, sends and receives nothing, knows
/// nobody and holds nothing that it received. What it was told before it joined stays.
pub proof fn law_left_portal_is_idle(portal: PortalView)
    ensures
        ({
            let after = portal.disconnected();
            &&& after.config == portal.config
            &&& after.handlers == portal.handlers
            &&& !after.connected
            &&& !after.participant
            &&& after.peer is None
            &&& after.state_publisher is None
            &&& after.action_publisher is None
            &&& after.sync_buffer is None
            &&& after.observation is None
            &&& after.action.latest is None
            &&& after.state.latest is None
            &&& after.action.warned_mismatches == portal.action.warned_mismatches
            &&& after.state.warned_mismatches == portal.state.warned_mismatches
            &&& forall|k: Seq<char>|
                {
                    &&& !#[trigger] after.receivers.contains(k)
                    &&& !after.video_publishers.contains(k)
                    &&& !after.frame_video_publishers.contains(k)
                    &&& !after.chunk_publishers.contains_key(k)
                    &&& after.chunks.contains_key(k) <==> portal.chunks.contains_key(k)
                    &&& after.frames.contains_key(k) <==> portal.frames.contains_key(k)
                    &&& after.chunks.contains_key(k) ==> after.chunks[k] is None
                    &&& after.frames.contains_key(k) ==> after.frames[k] is None
                }
        }),
{
}

/// A reconnect also empties the synchronisation buffer: no frame, no state and no frame to fall
/// back to is left of the time before.
pub proof fn law_reconnect_empties_buffer(portal: PortalView, sb: SyncView, i: int)
    requires
        portal.sync_buffer == Some(sb),
        0 <= i < sb.tracks.len(),
    ensures
        ({
            let after = portal.reconnected();
            &&& after.sync_buffer matches Some(empty)
            &&& empty.names == sb.names
            &&& empty.fields == sb.fields
            &&& empty.config == sb.config
            &&& empty.states.len() == 0
            &&& empty.tracks.len() == sb.tracks.len()
            &&& empty.tracks[i].frames.len() == 0
            &&& empty.tracks[i].last_emitted is None
        }),
{
}

/// A robot that is set up can send frames on every declared track of images and, where it
/// declared state fields, states of that schema on the topic of states.
pub proof fn law_robot_is_ready(portal: PortalView, fingerprint: u32)
    ensures
        ({
            let after = portal.robot_ready(fingerprint);
            &&& forall|k: Seq<char>|
                #![trigger after.frame_video_publishers.contains(k)]
                after.frame_video_publishers.contains(k)
                    <==> portal.frame_video_publishers.contains(k)
                    || portal.config.frame_video_names().contains(k)
            &&& portal.config.state_schema.len() > 0 ==> {
                &&& after.state_publisher matches Some(p)
                &&& p.schema == portal.config.state_schema
                &&& p.fingerprint == fingerprint
                &&& p.topic == STATE_TOPIC@
                &&& p.reliable == portal.config.state_reliable
                &&& p.last_values.len() == p.schema.len()
                &&& forall|i: int|
                    0 <= i < p.last_values.len() ==> (#[trigger] p.last_values[i]).bits == 0
            }
            &&& portal.config.state_schema.len() == 0 ==> after.state_publisher
                == portal.state_publisher
            &&& after == (PortalView {
                frame_video_publishers: after.frame_video_publishers,
                state_publisher: after.state_publisher,
                ..portal
            })
        }),
{
}

/// An operator that is set up puts observations together of all declared tracks and state fields,
/// from nothing, can send every declared chunk and, where it declared action fields, actions of
/// that schema on the topic of actions.
pub proof fn law_operator_is_ready(portal: PortalView, fingerprint: u32, sb: SyncView)
    requires
        portal.is_new_buffer(sb),
    ensures
        ({
            let after = portal.operator_ready(fingerprint, sb);
            &&& after.sync_buffer == Some(sb)
            &&& sb.names == portal.config.video_tracks + portal.config.frame_video_names()
            &&& sb.fields.len() == portal.config.state_schema.len()
            &&& forall|i: int|
                0 <= i < sb.fields.len() ==> #[trigger] sb.fields[i]
                    == portal.config.state_schema[i].name
            &&& sb.config == portal.config.sync()
            &&& sb.states.len() == 0
            &&& sb.tracks.len() == sb.names.len()
            &&& forall|i: int|
                0 <= i < sb.tracks.len() ==> (#[trigger] sb.tracks[i]).frames.len() == 0
                    && sb.tracks[i].last_emitted is None
            &&& portal.config.action_schema.len() > 0 ==> {
                &&& after.action_publisher matches Some(p)
                &&& p.schema == portal.config.action_schema
                &&& p.fingerprint == fingerprint
                &&& p.topic == ACTION_TOPIC@
                &&& p.reliable == portal.config.action_reliable
                &&& p.last_values.len() == p.schema.len()
                &&& forall|i: int|
                    0 <= i < p.last_values.len() ==> (#[trigger] p.last_values[i]).bits == 0
            }
            &&& portal.config.action_schema.len() == 0 ==> after.action_publisher
                == portal.action_publisher
            &&& forall|i: int|
                0 <= i < portal.config.action_chunks.len() && (forall|j: int|
                    i < j < portal.config.action_chunks.len() ==> (
                    #[trigger] portal.config.action_chunks[j]).name
                        != portal.config.action_chunks[i].name) ==> {
                    let declared = #[trigger] portal.config.action_chunks[i];
                    &&& after.chunk_publishers.contains_key(declared.name)
                    &&& after.chunk_publishers[declared.name].declared == declared
                }
            &&& after == (PortalView {
                sync_buffer: after.sync_buffer,
                action_publisher: after.action_publisher,
                chunk_publishers: after.chunk_publishers,
                ..portal
            })
        }),
{
    let after = portal.operator_ready(fingerprint, sb);
    let chunks = portal.config.action_chunks;
    assert forall|i: int| 0 <= i < sb.tracks.len() implies (#[trigger] sb.tracks[i]).frames.len()
        == 0 && sb.tracks[i].last_emitted is None by {
        assert(sb.tracks[i] == sb.cleared().tracks[i]);
    }
    assert(sb.states == sb.cleared().states);
    assert forall|i: int| 0 <= i < sb.fields.len() implies #[trigger] sb.fields[i]
        == portal.config.state_schema[i].name by {
        assert(schema_names(portal.config.state_schema)[i] == portal.config.state_schema[i].name);
    }
    assert forall|i: int|
        0 <= i < chunks.len() && (forall|j: int|
            i < j < chunks.len() ==> (#[trigger] chunks[j]).name != chunks[i].name) implies {
        let declared = #[trigger] chunks[i];
        &&& after.chunk_publishers.contains_key(declared.name)
        &&& after.chunk_publishers[declared.name].declared == declared
    } by {
        crate::chunk_publisher::law_each_chunk_has_its_publisher(chunks, i);
    }
}

/// The latest observation is the last of those that came out, and stays where none did.
pub proof fn law_latest_observation_is_last(
    before: Option<ObservationView>,
    output: OutputView,
)
    ensures
        output.observations.len() == 0 ==> latest_after(before, output) == before,
        output.observations.len() > 0 ==> latest_after(before, output) == Some(
            output.observations[output.observations.len() - 1],
        ),
{
}

/// What was pushed out and what was given up is told in one piece, the pushed-out first.
pub proof fn law_drops_are_told_in_order(output: OutputView, i: int)
    ensures
        output.told().len() == output.evicted.len() + output.drops.len(),
        0 <= i < output.evicted.len() ==> output.told()[i] == output.evicted[i],
        0 <= i < output.drops.len() ==> output.told()[output.evicted.len() + i]
            == output.drops[i],
{
}

/// A chunk that cannot be sent is refused by the actual mistake: a robot is told its role, an
/// operator that the chunk is unknown or, for a declared one, that it is not connected.
pub proof fn law_chunk_refusals_name_the_mistake(portal: PortalView, name: Seq<char>)
    requires
        places_match(portal),
    ensures
        portal.config.role == Role::Robot ==> portal.chunk_refusal(name) == ErrorView::WrongRole(
            Role::Robot,
        ),
        portal.config.role == Role::Operator && portal.config.chunk_names().contains(name)
            ==> portal.chunk_refusal(name) == ErrorView::NotConnected,
        portal.config.role == Role::Operator && !portal.config.chunk_names().contains(name)
            ==> portal.chunk_refusal(name) == ErrorView::UnknownChunk(name),
{
}

/// The listed methods are exactly the registered ones, each once and with its own handler.
pub proof fn law_handlers_are_listed(
    methods: Seq<(String, u64)>,
    handlers: Map<Seq<char>, u64>,
    method: Seq<char>,
)
    requires
        lists_handlers(methods, handlers),
    ensures
        handlers.contains_key(method) <==> exists|i: int|
            0 <= i < methods.len() && (#[trigger] methods[i]).0@ == method,
        forall|i: int|
            0 <= i < methods.len() && (#[trigger] methods[i]).0@ == method ==> methods[i].1
                == handlers[method],
        forall|i: int, j: int|
            0 <= i < j < methods.len() ==> (#[trigger] methods[i]).0@ != (
            #[trigger] methods[j]).0@,
{
    let named = methods.map_values(|m: (String, u64)| (m.0@, m.1));
    crate::field_map::lemma_collect_domain(named, method);
    if handlers.contains_key(method) {
        let i = choose|i: int| crate::field_map::named_at(named, method, i);
        assert(methods[i].0@ == method);
    }
    assert forall|i: int, j: int| 0 <= i < j < methods.len() implies (
    #[trigger] methods[i]).0@ != (#[trigger] methods[j]).0@ by {
        assert(named[i].0 != named[j].0);
    }
    assert forall|i: int| 0 <= i < methods.len() && (#[trigger] methods[i]).0@ == method implies {
        &&& methods[i].1 == handlers[method]
        &&& crate::field_map::named_at(named, method, i)
    } by {
        assert forall|j: int| i < j < named.len() implies (#[trigger] named[j]).0
            != named[i].0 by {
            assert(methods[i].0@ != methods[j].0@);
        }
        crate::field_map::lemma_collect_value(named, i);
    }
}

/// A result says what it holds, and so does an optional publisher.
pub proof fn law_results_say_what_they_hold(
    r: PortalResult<String>,
    publisher: Option<DataPublisher>,
)
    ensures
        r matches Ok(text) ==> result_view(r) == Ok::<Seq<char>, ErrorView>(text@),
        r matches Err(e) ==> result_view(r) == Err::<Seq<char>, ErrorView>(e@),
        publisher matches Some(p) ==> publisher_view(publisher) == Some(p@),
        publisher is None ==> publisher_view(publisher) is None,
{
}

} // verus!
