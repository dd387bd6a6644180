use std::sync::Arc;

use livekit_portal::chunk::{ActionChunk, ChunkDtype, CHUNK_TOPIC};
use livekit_portal::codec::Codec;
use livekit_portal::config::{FieldSpec, PortalConfig};
use livekit_portal::data::{
    DataSlots, DataStream, Fingerprints, Incoming, ACTION_TOPIC, RTT_TOPIC, STATE_TOPIC,
};
use livekit_portal::double::Double;
use livekit_portal::dtype::DType;
use livekit_portal::error::PortalError;
use livekit_portal::field_map::FieldMap;
use livekit_portal::portal::{
    Portal, PortalAction, PortalEvent, StreamKind, VideoRoute, FRAME_VIDEO_TOPIC,
};
use livekit_portal::session;
use livekit_portal::typed::TypedValue;
use livekit_portal::types::{Role, VideoFrameData};

fn d(v: f64) -> Double {
    Double::from_bits(v.to_bits())
}

fn map(pairs: &[(&str, f64)]) -> FieldMap<Double> {
    let mut m = FieldMap::new();
    for (k, v) in pairs {
        m.insert(k.to_string(), d(*v));
    }
    m
}

fn typed(kind: DType, pairs: &[(&str, f64)]) -> FieldMap<TypedValue> {
    let mut m = FieldMap::new();
    for (k, v) in pairs {
        m.insert(k.to_string(), TypedValue::from_f64(d(*v), kind));
    }
    m
}

fn columns(pairs: &[(&str, &[f64])]) -> FieldMap<Vec<Double>> {
    let mut m = FieldMap::new();
    for (k, vs) in pairs {
        m.insert(k.to_string(), vs.iter().map(|v| d(*v)).collect());
    }
    m
}

fn frame(ts: u64) -> Arc<VideoFrameData> {
    Arc::new(VideoFrameData { width: 2, height: 2, data: vec![0; 12], timestamp_us: ts })
}

fn chunk() -> ActionChunk {
    ActionChunk {
        horizon: 1,
        action_dim: 1,
        dtype: ChunkDtype::F16,
        captured_at_us: 3,
        payload: vec![0; 2],
    }
}

fn config(role: Role) -> PortalConfig {
    let mut c = PortalConfig::new("s".to_string(), role);
    c.add_video("cam1".to_string());
    c.add_frame_video("cam2".to_string(), Codec::Raw, 0);
    c.add_state_typed(vec![FieldSpec::new("j".to_string(), DType::F64)]);
    c.add_action_typed(vec![FieldSpec::new("a".to_string(), DType::F32)]);
    c.add_action_chunk("plan".to_string(), 1, vec![]);
    c
}

fn connected(role: Role) -> Portal {
    connect(config(role))
}

fn connect(config: PortalConfig) -> Portal {
    let role = config.role();
    let mut p = Portal::new(config);
    p.begin_connect().unwrap();
    p.room_joined();
    match role {
        Role::Robot => {
            let mut done = 0;
            while p.next_video_track(done).is_some() {
                p.video_published(done, Ok(())).unwrap();
                done += 1;
            }
            p.setup_robot(1);
        }
        Role::Operator => p.setup_operator(2),
    }
    p.finish_connect();
    p
}

fn data(topic: &str, from: &str, payload: Vec<u8>) -> PortalEvent {
    PortalEvent::DataReceived {
        payload,
        topic: Some(topic.to_string()),
        participant: Some(from.to_string()),
        fingerprints: None,
    }
}

#[test]
fn connecting_twice_is_refused() {
    let mut p = connected(Role::Robot);
    assert!(matches!(p.begin_connect(), Err(PortalError::AlreadyConnected)));
    assert!(p.begin_disconnect());
    assert!(p.finish_disconnect(Ok(())).is_ok());
    assert!(p.begin_connect().is_ok());
    assert!(!p.begin_disconnect());
}

#[test]
fn each_refusal_names_the_mistake() {
    let mut robot = connected(Role::Robot);
    assert_eq!(robot.send_video_frame("cam1").unwrap(), VideoRoute::Media);
    assert_eq!(robot.send_video_frame("cam2").unwrap(), VideoRoute::Frame);
    assert!(matches!(
        robot.send_video_frame("cam9"),
        Err(PortalError::UnknownVideoTrack { name }) if name == "cam9"
    ));
    assert!(matches!(
        robot.send_action(&typed(DType::F32, &[]), None, None, 0),
        Err(PortalError::WrongRole(Role::Robot))
    ));
    assert!(matches!(
        robot.send_action_chunk("plan", &columns(&[]), None, None, 0),
        Err(PortalError::WrongRole(Role::Robot))
    ));

    let mut operator = connected(Role::Operator);
    assert!(matches!(
        operator.send_video_frame("cam1"),
        Err(PortalError::WrongRole(Role::Operator))
    ));
    assert!(matches!(
        operator.send_video_frame("cam9"),
        Err(PortalError::UnknownVideoTrack { .. })
    ));
    assert!(matches!(
        operator.send_state(&typed(DType::F64, &[]), None, 0),
        Err(PortalError::WrongRole(Role::Operator))
    ));
    assert!(operator.send_action_chunk("plan", &columns(&[]), None, None, 0).is_ok());
    assert!(matches!(
        operator.send_action_chunk("other", &columns(&[]), None, None, 0),
        Err(PortalError::UnknownChunk { name }) if name == "other"
    ));
    let mut fresh = Portal::new(config(Role::Operator));
    assert!(matches!(
        fresh.send_action_chunk("plan", &columns(&[]), None, None, 0),
        Err(PortalError::NotConnected)
    ));
}

#[test]
fn a_state_crosses_from_robot_to_operator() {
    let mut robot = connected(Role::Robot);
    let mut operator = connected(Role::Operator);
    let packet = robot.send_state(&typed(DType::F64, &[("j", 0.1)]), Some(1_000), 0).unwrap();
    assert_eq!(packet.topic, STATE_TOPIC);

    let sample = match operator.handle_room_event(data(&packet.topic, "bot", packet.payload)) {
        PortalAction::Deliver(Incoming::Row(DataStream::State, sample)) => sample,
        _ => panic!("no state"),
    };
    let out = operator.deliver(DataStream::State, sample);
    assert!(out.is_empty());
    assert_eq!(*operator.get_state().unwrap().fields.get("j").unwrap(), d(0.1));
    assert_eq!(operator.peer_identity().map(|s| s.as_str()), Some("bot"));

    // The observation needs a frame of every track.
    assert!(operator.deliver_frame("cam1", frame(1_005)).is_empty());
    let out = operator.deliver_frame("cam2", frame(990));
    assert_eq!(out.observations.len(), 1);
    assert!(operator.get_observation().is_none());
    assert!(operator.dispatch(out).is_empty());
    let o = operator.get_observation().unwrap();
    assert_eq!(o.timestamp_us, 1_000);
    assert_eq!(o.frames.get("cam1").unwrap().timestamp_us, 1_005);
    assert_eq!(operator.get_video_frame("cam2").unwrap().timestamp_us, 990);
    let (fill, states) = operator.buffer_fill();
    assert_eq!((*fill.get("cam1").unwrap(), states), (0, 0));
}

#[test]
fn a_state_that_gives_way_reaches_the_drop_callback() {
    let mut c = config(Role::Operator);
    c.set_slack(1);
    let mut operator = connect(c);
    let schema = [FieldSpec::new("j".to_string(), DType::F64)];
    let older = DataSlots::sample(1_000, &schema, vec![d(0.5)]);
    let _ = operator.deliver(DataStream::State, older);
    let newer = DataSlots::sample(2_000, &schema, vec![d(0.75)]);
    let out = operator.deliver(DataStream::State, newer);
    assert!(out.is_empty());
    let told = operator.dispatch(out);
    assert_eq!(told.len(), 1);
    assert_eq!(*told[0].get("j").unwrap(), d(0.5));
}

#[test]
fn an_action_crosses_from_operator_to_robot() {
    let mut robot = connected(Role::Robot);
    let mut operator = connected(Role::Operator);
    let row = typed(DType::F32, &[("a", 0.5)]);
    let packet = operator.send_action(&row, None, Some(41), 44).unwrap();
    assert_eq!(packet.topic, ACTION_TOPIC);
    let sample = match robot.handle_room_event(data(&packet.topic, "op", packet.payload)) {
        PortalAction::Deliver(Incoming::Row(DataStream::Action, sample)) => sample,
        _ => panic!("no action"),
    };
    assert!(robot.deliver(DataStream::Action, sample).is_empty());
    let action = robot.get_action().unwrap();
    assert_eq!((action.timestamp_us, *action.fields.get("a").unwrap()), (44, d(0.5)));
}

#[test]
fn the_first_one_heard_of_is_the_peer() {
    let mut p = connected(Role::Robot);
    // Somebody else's topic says nothing.
    p.handle_room_event(data("chat", "stranger", vec![]));
    assert!(p.peer_identity().is_none());
    p.handle_room_event(data(RTT_TOPIC, "first", vec![]));
    p.handle_room_event(data(ACTION_TOPIC, "second", vec![]));
    assert_eq!(p.peer_identity().map(|s| s.as_str()), Some("first"));
    // Another participant may leave; the peer may too.
    p.handle_room_event(PortalEvent::ParticipantDisconnected { identity: "second".to_string() });
    assert!(p.peer_identity().is_some());
    p.handle_room_event(PortalEvent::ParticipantDisconnected { identity: "first".to_string() });
    assert!(p.peer_identity().is_none());

    let mut p = connected(Role::Operator);
    p.handle_room_event(PortalEvent::TrackSubscribed {
        video: true,
        track_name: "cam1".to_string(),
        participant: "bot".to_string(),
    });
    assert_eq!(p.peer_identity().map(|s| s.as_str()), Some("bot"));
}

#[test]
fn calls_find_their_destination() {
    let mut p = Portal::new(config(Role::Operator));
    let two = ["a".to_string(), "b".to_string()];
    assert!(matches!(p.perform_rpc(None, &two), Err(PortalError::NotConnected)));
    assert!(matches!(p.perform_rpc(Some("x"), &two), Err(PortalError::NotConnected)));
    p = connected(Role::Operator);
    assert_eq!(p.perform_rpc(Some("x"), &two).unwrap(), "x");
    assert!(matches!(p.resolve_peer(&two), Err(PortalError::AmbiguousPeer)));
    assert!(matches!(p.resolve_peer(&[]), Err(PortalError::NoPeer)));
    assert_eq!(p.perform_rpc(None, &two[..1]).unwrap(), "a");
    p.handle_room_event(data(STATE_TOPIC, "b", vec![]));
    assert_eq!(p.perform_rpc(None, &two).unwrap(), "b");
}

#[test]
fn registered_methods_survive_a_disconnect() {
    let mut p = Portal::new(config(Role::Robot));
    assert!(!p.register_rpc_method("home", 1));
    assert!(!p.register_rpc_method("stop", 2));
    assert!(!p.unregister_rpc_method("stop"));
    assert_eq!(p.room_joined(), vec![("home".to_string(), 1)]);
    assert!(p.register_rpc_method("home", 3));
    p.finish_disconnect(Err(PortalError::Room("late".to_string()))).unwrap_err();
    assert_eq!(p.apply_rpc_handlers(), vec![("home".to_string(), 3)]);
    assert!(!p.unregister_rpc_method("home"));
}

#[test]
fn a_reconnect_forgets_what_was_received() {
    let mut p = connected(Role::Operator);
    p.handle_room_event(data(STATE_TOPIC, "bot", vec![]));
    p.deliver_frame("cam1", frame(1));
    p.deliver_chunk("plan", chunk());
    p.deliver_chunk("nobody", chunk());
    assert!(p.get_action_chunk("plan").is_some());
    assert!(p.get_action_chunk("nobody").is_none());
    p.handle_room_event(PortalEvent::Reconnected);
    assert!(p.peer_identity().is_none());
    assert!(p.get_video_frame("cam1").is_none());
    assert!(p.get_action_chunk("plan").is_none());
    let (fill, states) = p.buffer_fill();
    assert_eq!((*fill.get("cam1").unwrap(), states), (0, 0));
    assert!(matches!(p.begin_connect(), Err(PortalError::AlreadyConnected)));
}

#[test]
fn a_failed_track_takes_the_others_with_it() {
    let mut c = PortalConfig::new("s".to_string(), Role::Robot);
    c.add_video("cam1".to_string());
    c.add_video("cam2".to_string());
    let mut p = Portal::new(c);
    p.video_published(0, Ok(())).unwrap();
    assert_eq!(p.send_video_frame("cam1").unwrap(), VideoRoute::Media);
    let e = p.video_published(1, Err(PortalError::Room("no".to_string()))).unwrap_err();
    assert_eq!(e.message(), "room error: no");
    assert!(p.send_video_frame("cam1").is_err());
}

#[test]
fn streams_are_taken_by_their_owners_only() {
    let open = |topic: &str| PortalEvent::ByteStreamOpened { topic: topic.to_string() };
    let mut robot = connected(Role::Robot);
    assert!(matches!(
        robot.handle_room_event(open(CHUNK_TOPIC)),
        PortalAction::Take(StreamKind::Chunk)
    ));
    assert!(matches!(robot.handle_room_event(open(FRAME_VIDEO_TOPIC)), PortalAction::Nothing));
    let mut operator = connected(Role::Operator);
    assert!(matches!(
        operator.handle_room_event(open(FRAME_VIDEO_TOPIC)),
        PortalAction::Take(StreamKind::Frame)
    ));
    assert!(matches!(operator.handle_room_event(open(CHUNK_TOPIC)), PortalAction::Nothing));
    let taken = PortalEvent::StreamTaken { kind: StreamKind::Frame, participant: "r".to_string() };
    assert!(matches!(operator.handle_room_event(taken), PortalAction::Read(StreamKind::Frame)));
    assert_eq!(operator.peer_identity().map(|s| s.as_str()), Some("r"));
}

#[test]
fn callbacks_are_kept_for_declared_names_only() {
    let p = Portal::new(config(Role::Operator));
    assert!(p.on_video_frame("cam1"));
    assert!(p.on_video_frame("cam2"));
    assert!(!p.on_video_frame("cam3"));
    assert!(p.on_action_chunk("plan"));
    assert!(!p.on_action_chunk("plane"));
    assert_eq!(p.state_schema()[0].name, "j");
    assert_eq!(p.action_schema()[0].dtype, DType::F32);
    assert_eq!(p.action_chunks().len(), 1);
    assert_eq!(p.config().session(), "s");
}

// Sessions of plain fields.

#[test]
fn values_of_another_type_are_refused() {
    let mut robot = connected(Role::Robot);
    match robot.send_state(&typed(DType::Bool, &[("j", 1.0)]), None, 0) {
        Err(PortalError::DtypeMismatch { field, expected, got }) => {
            assert_eq!((field.as_str(), expected, got.as_str()), ("j", DType::F64, "Bool"))
        }
        _ => panic!("sent"),
    }
    // Names that no field has may be of any type; they are reported and left out.
    let packet = robot.send_state(&typed(DType::Bool, &[("k", 1.0)]), None, 0).unwrap();
    assert_eq!(packet.unknown_keys, vec!["k".to_string()]);
    let mut operator = connected(Role::Operator);
    assert!(matches!(
        operator.send_action(&typed(DType::F64, &[("a", 0.5)]), None, None, 0),
        Err(PortalError::DtypeMismatch { .. })
    ));
    let packet = operator.send_action(&typed(DType::F32, &[]), None, Some(7), 0).unwrap();
    assert_eq!(packet.in_reply_to_ts_us, Some(7));
}

#[test]
fn chunk_columns_are_fitted_to_the_horizon() {
    let mut c = config(Role::Operator);
    let fields = ["x", "y", "z"].map(|n| FieldSpec::new(n.to_string(), DType::F32));
    c.add_action_chunk("reach".to_string(), 3, fields.into_iter().collect());
    let mut operator = connect(c);
    let data = columns(&[("y", &[1.0, 2.0, 3.0, 4.0]), ("x", &[5.0]), ("typo", &[6.0])]);
    let chunk = operator.send_action_chunk("reach", &data, None, Some(8), 9).unwrap();
    assert_eq!((chunk.name.as_str(), chunk.timestamp_us), ("reach", 9));
    assert_eq!(chunk.in_reply_to_ts_us, Some(8));
    let rows: Vec<Vec<f64>> = chunk
        .columns
        .iter()
        .map(|c| c.iter().map(|v| f64::from_bits(v.to_bits())).collect())
        .collect();
    assert_eq!(rows, vec![vec![5.0, 0.0, 0.0], vec![1.0, 2.0, 3.0], vec![0.0, 0.0, 0.0]]);
    assert_eq!(chunk.unknown_keys, vec!["typo".to_string()]);
    let again = operator.send_action_chunk("reach", &data, Some(10), None, 11).unwrap();
    assert_eq!((again.timestamp_us, again.in_reply_to_ts_us), (10, None));
    assert!(again.unknown_keys.is_empty());
}

#[test]
fn an_event_of_another_schema_delivers_nothing() {
    let mut robot = connected(Role::Robot);
    let mut operator = connected(Role::Operator);
    let packet = operator.send_action(&typed(DType::F32, &[("a", 0.5)]), None, None, 1).unwrap();
    let event = PortalEvent::DataReceived {
        payload: packet.payload,
        topic: Some(packet.topic),
        participant: Some("op".to_string()),
        fingerprints: Some(Fingerprints { local: 3, carried: 4 }),
    };
    assert!(matches!(
        robot.handle_room_event(event),
        PortalAction::Deliver(Incoming::Mismatch(DataStream::Action, Some(_)))
    ));
    assert!(robot.get_action().is_none());
}

fn plain(role: Role) -> session::PortalConfig {
    let mut c = session::PortalConfig::new(role);
    c.add_video("cam1".to_string());
    c.add_state(vec!["old".to_string()]);
    c.add_state(vec!["j1".to_string(), "j2".to_string()]);
    c.add_action(vec!["a".to_string()]);
    c.set_search_range_ms(1);
    c
}

#[test]
fn a_plain_session_moves_states_and_frames() {
    let mut robot = session::Portal::new(&plain(Role::Robot));
    robot.begin_connect().unwrap();
    robot.video_published("cam1");
    assert_eq!(robot.data_track(), Some(STATE_TOPIC));
    robot.setup_robot();
    robot.finish_connect();
    assert!(matches!(robot.begin_connect(), Err(PortalError::AlreadyConnected)));

    let mut operator = session::Portal::new(&plain(Role::Operator));
    operator.setup_operator_buffer();
    assert_eq!(operator.data_track(), Some(ACTION_TOPIC));
    operator.setup_operator();
    operator.finish_connect();

    // Fields that the row leaves out are zero.
    let payload = robot.send_state(&map(&[("j2", 2.0)]), None, 700).unwrap();
    assert_eq!(payload.len(), 8 + 2 * 8);
    let (raw, out) = operator.receive_state(&payload).unwrap();
    assert_eq!((*raw.get("j1").unwrap(), *raw.get("j2").unwrap()), (d(0.0), d(2.0)));
    assert!(out.observations.is_empty());
    let out = operator.receive_frame("cam1", frame(1_600)).unwrap();
    assert_eq!(out.observations.len(), 1);
    assert_eq!(out.observations[0].timestamp_us, 700);
    assert!(operator.receive_state(&payload[1..]).is_none());

    let payload = operator.send_action(&map(&[("a", 4.0)]), Some(1), 2).unwrap();
    assert_eq!(*robot.receive_action(&payload).unwrap().get("a").unwrap(), d(4.0));
    assert!(robot.receive_action(&[]).is_none());
    assert!(matches!(
        operator.send_state(&map(&[]), None, 0),
        Err(PortalError::WrongRole(Role::Operator))
    ));
    assert!(matches!(
        robot.send_action(&map(&[]), None, 0),
        Err(PortalError::WrongRole(Role::Robot))
    ));
}

#[test]
fn planar_pictures_are_checked() {
    let mut robot = session::Portal::new(&plain(Role::Robot));
    assert!(matches!(
        robot.send_video_frame("cam1", &[0; 6], 2, 2, None, 5),
        Err(PortalError::UnknownVideoTrack { .. })
    ));
    robot.video_published("cam1");
    assert_eq!(robot.send_video_frame("cam1", &[0; 6], 2, 2, None, 5).unwrap(), 5);
    assert_eq!(robot.send_video_frame("cam1", &[0; 6], 2, 2, Some(4), 5).unwrap(), 4);
    assert!(matches!(
        robot.send_video_frame("cam1", &[0; 7], 2, 2, None, 5),
        Err(PortalError::WrongValueCount { expected: 6, got: 7 })
    ));
    assert_eq!(session::i420_planes(4, 2), (8, 10, 12));
    assert_eq!(session::i420_planes(3, 3), (9, 10, 11));
}

#[test]
fn values_have_to_match_their_fields() {
    let p = session::DataPublisher::new(vec!["a".to_string(), "b".to_string()]);
    assert_eq!(p.fields().len(), 2);
    assert!(matches!(
        p.send(&[d(1.0)], None, 0),
        Err(PortalError::WrongValueCount { expected: 2, got: 1 })
    ));
    let payload = p.send(&[d(1.5), d(f64::NAN)], Some(6), 0).unwrap();
    let (ts, values) = session::receive_row(&payload, 2).unwrap();
    assert_eq!((ts, values), (6, vec![d(1.5), d(f64::NAN)]));
    assert!(session::receive_row(&payload, 3).is_none());
}

#[test]
fn a_plain_session_reacts_to_events() {
    let subscribed = |name: &str| session::SessionEvent::TrackSubscribed {
        video: true,
        track_name: name.to_string(),
    };
    let published = |name: &str| session::SessionEvent::DataTrackPublished {
        track_name: name.to_string(),
    };
    let mut operator = session::Portal::new(&plain(Role::Operator));
    assert!(matches!(
        operator.handle_room_event(subscribed("cam1")),
        session::SessionAction::Nothing
    ));
    assert!(!operator.subscribed(DataStream::State));
    operator.setup_operator_buffer();
    assert!(operator.subscribed(DataStream::State));
    assert!(matches!(
        operator.handle_room_event(subscribed("cam1")),
        session::SessionAction::Receive { track_name } if track_name == "cam1"
    ));
    assert!(matches!(
        operator.handle_room_event(subscribed("cam2")),
        session::SessionAction::Nothing
    ));
    assert!(matches!(
        operator.handle_room_event(published(STATE_TOPIC)),
        session::SessionAction::Subscribe(DataStream::State)
    ));
    assert!(matches!(
        operator.handle_room_event(published(ACTION_TOPIC)),
        session::SessionAction::Nothing
    ));
    assert!(operator.on_video("cam1"));
    assert!(!operator.on_video("cam2"));

    // What was buffered before a reconnect is gone.
    operator.receive_frame("cam1", frame(500)).unwrap();
    operator.handle_room_event(session::SessionEvent::Reconnected);
    let payload = session::DataPublisher::new(vec!["j1".to_string(), "j2".to_string()])
        .send(&[d(0.0), d(0.0)], Some(500), 0)
        .unwrap();
    assert!(operator.receive_state(&payload).unwrap().1.observations.is_empty());
}

#[test]
fn a_failed_close_leaves_a_plain_session_as_it_is() {
    let mut robot = session::Portal::new(&plain(Role::Robot));
    robot.video_published("cam1");
    robot.setup_robot();
    robot.finish_connect();
    assert!(robot.begin_disconnect());
    assert!(robot.finish_disconnect(Err(PortalError::Room("x".to_string()))).is_err());
    assert!(robot.send_state(&map(&[]), None, 0).is_ok());
    assert!(!robot.begin_disconnect());
    assert!(robot.finish_disconnect(Ok(())).is_ok());
    assert!(robot.send_state(&map(&[]), None, 0).is_err());
    assert!(robot.send_video_frame("cam1", &[], 0, 0, None, 0).is_err());
}

#[test]
fn buffer_settings_reach_the_buffer() {
    let mut c = plain(Role::Operator);
    c.set_video_buffer(1);
    c.set_state_buffer(1);
    c.set_observation_buffer(1);
    let mut operator = session::Portal::new(&c.snapshot());
    operator.setup_operator_buffer();
    operator.receive_frame("cam1", frame(100)).unwrap();
    operator.receive_frame("cam1", frame(90_000)).unwrap();
    // The older frame gave way, so a state near it can no longer match.
    let payload = session::DataPublisher::new(vec!["j1".to_string(), "j2".to_string()])
        .send(&[d(0.0), d(0.0)], Some(100), 0)
        .unwrap();
    let (_, out) = operator.receive_state(&payload).unwrap();
    assert_eq!((out.observations.len(), out.drops.len()), (0, 1));
}
