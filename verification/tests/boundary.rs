use std::sync::Arc;

use livekit_portal::config::{FieldSpec, PortalConfig};
use livekit_portal::double::{Double, Single};
use livekit_portal::dtype::DType;
use livekit_portal::error::{PortalError, RpcError};
use livekit_portal::ffi;
use livekit_portal::field_map::FieldMap;
use livekit_portal::metrics;
use livekit_portal::requests::{
    handle_request, Effect, Query, Request, Response, RoleCode,
};
use livekit_portal::server::{
    ConfigEdit, DeclaredFields, FfiConfig, FfiDataBuffer, FfiError, FfiEvent, FfiPortal,
    FfiPortalConfig, FfiServer, HandleObject, INVALID_HANDLE,
};
use livekit_portal::types::{Observation, Role, VideoFrameData};

fn d(v: f64) -> Double {
    Double::from_bits(v.to_bits())
}

fn map(pairs: &[(&str, f64)]) -> FieldMap<Double> {
    let mut m = FieldMap::new();
    for (k, v) in pairs {
        m.insert(k.to_string(), d(*v));
    }
    m
}

fn ask(server: &mut FfiServer, request: Request) -> (Response, Effect) {
    handle_request(server, Some(request), 1_000).unwrap()
}

fn refusal(server: &mut FfiServer, request: Request) -> FfiError {
    match handle_request(server, Some(request), 1_000) {
        Err(e) => e,
        Ok(_) => panic!("accepted"),
    }
}

fn new_config(server: &mut FfiServer, role: Role) -> u64 {
    let request = Request::NewConfig { session: "s".to_string(), role: RoleCode::Known(role) };
    match ask(server, request).0 {
        Response::NewConfig { handle } => handle,
        _ => panic!("no configuration"),
    }
}

fn edit(server: &mut FfiServer, config_handle: u64, edit: ConfigEdit) {
    assert!(matches!(
        ask(server, Request::EditConfig { config_handle, edit }).0,
        Response::ConfigEdited
    ));
}

/// A server with one connected portal.
fn with_portal(role: Role) -> (FfiServer, u64) {
    let mut server = FfiServer::new();
    let config_handle = new_config(&mut server, role);
    edit(&mut server, config_handle, ConfigEdit::AddVideo("cam1".to_string()));
    edit(&mut server, config_handle, ConfigEdit::AddState(vec!["j".to_string()]));
    edit(&mut server, config_handle, ConfigEdit::AddAction(vec!["a".to_string()]));
    let handle = match ask(&mut server, Request::NewPortal { config_handle }).0 {
        Response::NewPortal { handle, declared } => {
            assert_eq!(declared.video_tracks, vec!["cam1"]);
            assert_eq!(declared.state_fields, vec!["j"]);
            assert_eq!(declared.action_fields, vec!["a"]);
            handle
        }
        _ => panic!("no portal"),
    };
    let mut inner = match server.take(handle) {
        Some(HandleObject::Portal(p)) => p.into_inner(),
        _ => panic!("no portal"),
    };
    inner.room_joined();
    match role {
        Role::Robot => {
            inner.video_published(0, Ok(())).unwrap();
            inner.setup_robot(1);
        }
        Role::Operator => inner.setup_operator(2),
    }
    inner.finish_connect();
    let declared = DeclaredFields {
        video_tracks: vec!["cam1".to_string()],
        state_fields: vec!["j".to_string()],
        action_fields: vec!["a".to_string()],
    };
    server.store_handle(handle, HandleObject::Portal(FfiPortal::new(handle, inner, declared)));
    (server, handle)
}

#[test]
fn handles_are_fresh_and_go_away() {
    let mut server = FfiServer::new();
    assert_eq!(INVALID_HANDLE, 0);
    let first = server.next_id();
    assert_eq!(first, 1);
    assert_eq!(server.next_id(), 2);
    assert_eq!(server.resolve_async_id(77), 77);
    assert_eq!(server.resolve_async_id(0), 3);
    server.store_handle(first, HandleObject::Buffer(FfiDataBuffer::new(vec![1, 2])));
    match server.object(first) {
        Some(HandleObject::Buffer(b)) => {
            assert_eq!((b.as_slice(), b.len()), (&[1u8, 2][..], 2));
        }
        _ => panic!("no buffer"),
    }
    // A second object takes the place of the first.
    server.store_handle(first, HandleObject::Buffer(FfiDataBuffer::new(vec![3])));
    assert!(matches!(server.object(first), Some(HandleObject::Buffer(b)) if b.len() == 1));
    assert!(server.drop_handle(first));
    assert!(!server.drop_handle(first));
    assert!(server.object(first).is_none());
    assert!(server.take(first).is_none());
}

#[test]
fn events_are_told_once_somebody_listens() {
    let mut server = FfiServer::new();
    assert!(!server.send_event());
    server.set_config(FfiConfig { sdk: "py".to_string(), sdk_version: "1".to_string() });
    assert!(server.send_event());
}

#[test]
fn an_encoded_reply_gets_a_handle() {
    let mut server = FfiServer::new();
    let id = server.finish_request(Some(vec![9, 9, 9]));
    assert!(matches!(server.object(id), Some(HandleObject::Buffer(b)) if b.len() == 3));
    assert_eq!(server.finish_request(None), INVALID_HANDLE);
}

#[test]
fn requests_need_the_right_handle() {
    let mut server = FfiServer::new();
    let config = new_config(&mut server, Role::Robot);
    assert!(matches!(
        refusal(&mut server, Request::NewPortal { config_handle: 99 }),
        FfiError::HandleNotFound(99)
    ));
    assert!(matches!(
        refusal(&mut server, Request::Disconnect { portal_handle: config }),
        FfiError::HandleTypeMismatch(h) if h == config
    ));
    assert!(matches!(
        handle_request(&mut server, None, 0),
        Err(FfiError::InvalidRequest(text)) if text == "FfiRequest.message empty"
    ));
    let request =
        Request::NewConfig { session: "s".to_string(), role: RoleCode::Unknown(-3) };
    assert!(matches!(
        refusal(&mut server, request),
        FfiError::InvalidRequest(text) if text == "unknown role -3"
    ));
}

#[test]
fn settings_are_checked() {
    let mut server = FfiServer::new();
    let config_handle = new_config(&mut server, Role::Robot);
    let tolerance = |v: f32| ConfigEdit::SetTolerance(Single { bits: v.to_bits() });
    let refused = [
        (ConfigEdit::SetFps(0), "fps must be > 0"),
        (ConfigEdit::SetSlack(0), "slack must be > 0"),
        (tolerance(0.0), "tolerance must be > 0"),
        (tolerance(-1.0), "tolerance must be > 0"),
        (tolerance(f32::NAN), "tolerance must be > 0"),
    ];
    for (edit, text) in refused {
        assert!(matches!(
            refusal(&mut server, Request::EditConfig { config_handle, edit }),
            FfiError::Rejected(t) if t == text
        ));
    }
    edit(&mut server, config_handle, ConfigEdit::SetFps(60));
    edit(&mut server, config_handle, ConfigEdit::SetSlack(8));
    edit(&mut server, config_handle, tolerance(0.25));
    edit(&mut server, config_handle, ConfigEdit::SetStateReliable(false));
    edit(&mut server, config_handle, ConfigEdit::SetActionReliable(false));
    edit(&mut server, config_handle, ConfigEdit::SetPingMs(5));
    let snapshot = match server.object(config_handle) {
        Some(HandleObject::Config(c)) => c.snapshot(),
        _ => panic!("no configuration"),
    };
    assert_eq!((snapshot.fps(), snapshot.ping_ms()), (60, 5));
    assert_eq!(f32::from_bits(snapshot.tolerance().bits), 0.25);
    assert!(!snapshot.state_reliable());
    assert!(!snapshot.action_reliable());
    assert_eq!(snapshot.sync_config().state_buffer_size, 8);
}

#[test]
fn what_takes_time_is_answered_later() {
    let (mut server, portal_handle) = with_portal(Role::Robot);
    let request = Request::Connect {
        portal_handle,
        url: "ws://x".to_string(),
        token: "t".to_string(),
    };
    match ask(&mut server, request) {
        (Response::Pending { async_id }, Effect::Connect { portal_handle: h, async_id: a, url, token }) => {
            assert_eq!((h, a, url.as_str(), token.as_str()), (portal_handle, async_id, "ws://x", "t"));
        }
        _ => panic!("not pending"),
    }
    assert!(matches!(
        ask(&mut server, Request::Disconnect { portal_handle }),
        (Response::Pending { .. }, Effect::Disconnect { .. })
    ));
}

#[test]
fn frames_and_rows_go_out() {
    let (mut server, portal_handle) = with_portal(Role::Robot);
    let frame = |track: &str, len: usize, width: u32, height: u32| Request::SendVideoFrame {
        portal_handle,
        track_name: track.to_string(),
        rgb_data: vec![0; len],
        width,
        height,
        timestamp_us: None,
    };
    match ask(&mut server, frame("cam1", 12, 2, 2)) {
        (Response::Sent { error: None }, Effect::CaptureFrame { track_name, timestamp_us }) => {
            assert_eq!((track_name.as_str(), timestamp_us), ("cam1", 1_000));
        }
        _ => panic!("not sent"),
    }
    match ask(&mut server, frame("cam1", 11, 2, 2)) {
        (Response::Sent { error: Some(e) }, Effect::Nothing) => {
            assert_eq!(e.variant, "WrongFrameSize");
        }
        _ => panic!("sent"),
    }
    match ask(&mut server, frame("cam9", 12, 2, 2)) {
        (Response::Sent { error: Some(e) }, Effect::Nothing) => {
            assert_eq!((e.variant.as_str(), e.message.as_str()),
                ("UnknownVideoTrack", "unknown video track: cam9"));
        }
        _ => panic!("sent"),
    }
    match ask(&mut server, frame("cam1", 0, 0x1_0000, 0x1_0000)) {
        (Response::Sent { error: Some(e) }, Effect::Nothing) => {
            assert_eq!(e.message, "wrong frame size: expected 12884901888 bytes, got 0");
        }
        _ => panic!("sent"),
    }

    let row = Request::SendState { portal_handle, values: map(&[("j", 1.0)]), timestamp_us: None };
    match ask(&mut server, row) {
        (Response::Sent { error: None }, Effect::Publish(packet)) => {
            assert_eq!(packet.payload.len(), 16);
            assert_eq!(packet.topic, "portal_state");
        }
        _ => panic!("not sent"),
    }
    let row = Request::SendAction { portal_handle, values: map(&[]), timestamp_us: None };
    match ask(&mut server, row) {
        (Response::Sent { error: Some(e) }, Effect::Nothing) => {
            assert_eq!(e.variant, "WrongRole");
        }
        _ => panic!("sent"),
    }
}

#[test]
fn questions_are_answered() {
    let (mut server, portal_handle) = with_portal(Role::Operator);
    let mut asked = |query| ask(&mut server, Request::Ask { portal_handle, query });
    assert!(matches!(asked(Query::Observation).0, Response::Observation(None)));
    assert!(matches!(asked(Query::Action).0, Response::Values { present: false, .. }));
    assert!(matches!(asked(Query::State).0, Response::Values { present: false, .. }));
    assert!(matches!(asked(Query::VideoFrame("cam1".to_string())).0, Response::VideoFrame(None)));
    match asked(Query::Metrics).0 {
        Response::Metrics { video_fill, state_fill } => {
            assert_eq!((video_fill.get("cam1"), state_fill), (Some(&0), 0));
        }
        _ => panic!("no metrics"),
    }
    assert!(matches!(
        asked(Query::ResetMetrics),
        (Response::MetricsReset, Effect::ResetMetrics { portal_handle: h }) if h == portal_handle
    ));
    assert!(matches!(
        ask(&mut server, Request::DisposeHandle { handle: portal_handle }).0,
        Response::Disposed { existed: true }
    ));
    assert!(matches!(
        ask(&mut server, Request::DisposeHandle { handle: portal_handle }).0,
        Response::Disposed { existed: false }
    ));
}

#[test]
fn events_carry_the_handle_of_their_portal() {
    let (server, handle) = with_portal(Role::Operator);
    let portal = match server.object(handle) {
        Some(HandleObject::Portal(p)) => p,
        _ => panic!("no portal"),
    };
    let values = map(&[("j", 3.0)]);
    assert!(matches!(
        portal.state_event(&values),
        FfiEvent::State { portal_handle, values } if portal_handle == handle && values.len() == 1
    ));
    assert!(matches!(
        portal.action_event(&values),
        FfiEvent::Action { portal_handle, .. } if portal_handle == handle
    ));
    assert!(matches!(
        portal.drop_event(vec![map(&[]), map(&[])]),
        FfiEvent::Drop { dropped, .. } if dropped.len() == 2
    ));
    let frame = VideoFrameData { width: 1, height: 1, data: vec![7], timestamp_us: 5 };
    match portal.video_frame_event("cam1", &frame) {
        FfiEvent::VideoFrame { track_name, frame, .. } => {
            assert_eq!((track_name.as_str(), frame.data), ("cam1", vec![7]));
        }
        _ => panic!("no frame"),
    }
    let mut frames = FieldMap::new();
    frames.insert("cam1".to_string(), Arc::new(frame));
    let o = Observation { state: values, frames, timestamp_us: 8 };
    match portal.observation_event(&o) {
        FfiEvent::Observation { observation, .. } => {
            assert_eq!(observation.timestamp_us, 8);
            assert_eq!(observation.frames.get("cam1").unwrap().timestamp_us, 5);
            assert_eq!(*observation.state.get("j").unwrap(), d(3.0));
        }
        _ => panic!("no observation"),
    }
}

#[test]
fn a_wrapped_configuration_keeps_what_was_declared() {
    let mut c = FfiPortalConfig::new(PortalConfig::new("s".to_string(), Role::Robot));
    c.add_video("cam1".to_string());
    c.add_state(vec!["a".to_string()]);
    c.add_state(vec!["b".to_string()]);
    c.add_action(vec!["c".to_string()]);
    let declared = c.declared_fields();
    assert_eq!(declared.state_fields, vec!["a", "b"]);
    assert_eq!((declared.video_tracks.len(), declared.action_fields.len()), (1, 1));
    assert_eq!(c.snapshot().state_schema()[1].dtype, DType::F64);
}

#[test]
fn enums_cross_in_both_directions() {
    for role in [ffi::Role::Robot, ffi::Role::Operator] {
        assert_eq!(ffi::Role::from(Role::from(role)), role);
    }
    for dtype in [
        ffi::DType::F64,
        ffi::DType::F32,
        ffi::DType::I32,
        ffi::DType::I16,
        ffi::DType::I8,
        ffi::DType::U32,
        ffi::DType::U16,
        ffi::DType::U8,
        ffi::DType::Bool,
    ] {
        assert_eq!(ffi::DType::from(DType::from(dtype)), dtype);
    }
}

#[test]
fn errors_cross_with_their_message() {
    let record = ffi::error_record(&PortalError::AlreadyConnected);
    assert_eq!(record.variant, "AlreadyConnected");
    assert_eq!(record.message, "portal is already connected");
    let crossed = ffi::PortalError::from(PortalError::UnknownVideoTrack { name: "x".to_string() });
    assert!(matches!(crossed, ffi::PortalError::UnknownVideoTrack { .. }));
    let crossed = ffi::RpcError::from(RpcError::new(3, "m".to_string(), Some("d".to_string())));
    assert!(matches!(
        crossed,
        ffi::RpcError::Error { code: 3, message, data } if message == "m" && data.as_deref() == Some("d")
    ));
}

#[test]
fn metrics_cross_field_by_field() {
    let mut evictions = FieldMap::new();
    evictions.insert("cam1".to_string(), 4u64);
    let mut video_fill = FieldMap::new();
    video_fill.insert("cam1".to_string(), 2usize);
    let core = metrics::PortalMetrics {
        sync: metrics::SyncMetrics {
            observations_emitted: 1,
            stale_observations_emitted: 2,
            states_dropped: 3,
            match_delta_us_p50: Some(4),
            match_delta_us_p95: None,
            last_blocker_track: Some("cam1".to_string()),
        },
        transport: metrics::TransportMetrics {
            frames_sent: FieldMap::new(),
            frames_received: FieldMap::new(),
            states_sent: 5,
            states_received: 6,
            actions_sent: 7,
            actions_received: 8,
            action_chunks_sent: 16,
            action_chunks_received: 17,
            frame_jitter_us: FieldMap::new(),
            state_jitter_us: 9,
            action_jitter_us: 10,
            action_chunk_jitter_us: 18,
        },
        buffers: metrics::BufferMetrics { video_fill, state_fill: 11, evictions },
        rtt: metrics::RttMetrics {
            rtt_us_last: Some(12),
            rtt_us_mean: None,
            rtt_us_p95: Some(13),
            pings_sent: 14,
            pongs_received: 15,
        },
        policy: metrics::PolicyMetrics {
            e2e_us_p50: Some(19),
            e2e_us_p95: None,
            correlated_received: 20,
        },
    };
    let m = ffi::metrics_from_core(core);
    assert_eq!(
        (m.sync.observations_emitted, m.sync.stale_observations_emitted, m.sync.states_dropped),
        (1, 2, 3)
    );
    assert_eq!((m.sync.match_delta_us_p50, m.sync.match_delta_us_p95), (Some(4), None));
    assert_eq!(m.sync.last_blocker_track.as_deref(), Some("cam1"));
    assert_eq!((m.transport.states_sent, m.transport.states_received), (5, 6));
    assert_eq!((m.transport.actions_sent, m.transport.actions_received), (7, 8));
    assert_eq!((m.transport.state_jitter_us, m.transport.action_jitter_us), (9, 10));
    assert_eq!(m.buffers.video_fill.get("cam1"), Some(&2));
    assert_eq!((m.buffers.state_fill, m.buffers.evictions.get("cam1")), (11, Some(&4)));
    assert_eq!((m.rtt.rtt_us_last, m.rtt.rtt_us_mean, m.rtt.rtt_us_p95), (Some(12), None, Some(13)));
    assert_eq!((m.rtt.pings_sent, m.rtt.pongs_received), (14, 15));
}

#[test]
fn undeclared_fields_are_doubles() {
    let schema = [FieldSpec::new("g".to_string(), DType::Bool)];
    assert_eq!(ffi::dtype_for(&schema, "g"), DType::Bool);
    assert_eq!(ffi::dtype_for(&schema, "x"), DType::F64);
    let copy = ffi::copy_fields(&map(&[("a", 1.0), ("b", 2.0)]));
    assert_eq!((copy.len(), *copy.get("b").unwrap()), (2, d(2.0)));
}

#[test]
fn every_request_through_a_dead_handle_is_refused() {
    let mut server = FfiServer::new();
    let id = 99;
    let requests = vec![
        Request::EditConfig { config_handle: id, edit: ConfigEdit::SetFps(30) },
        Request::NewPortal { config_handle: id },
        Request::Connect { portal_handle: id, url: String::new(), token: String::new() },
        Request::Disconnect { portal_handle: id },
        Request::SendVideoFrame {
            portal_handle: id,
            track_name: "cam1".to_string(),
            rgb_data: vec![],
            width: 2,
            height: 2,
            timestamp_us: None,
        },
        Request::SendState { portal_handle: id, values: map(&[]), timestamp_us: None },
        Request::SendAction { portal_handle: id, values: map(&[]), timestamp_us: None },
        Request::Ask { portal_handle: id, query: Query::State },
    ];
    for request in requests {
        assert!(matches!(refusal(&mut server, request), FfiError::HandleNotFound(99)));
    }
    assert!(matches!(
        ask(&mut server, Request::DisposeHandle { handle: id }).0,
        Response::Disposed { existed: false }
    ));
}

#[test]
fn handles_are_stored_where_others_were_dropped() {
    let mut server = FfiServer::new();
    let mut last = 0;
    for round in 0..100u8 {
        let id = server.finish_request(Some(vec![round]));
        assert!(id > last);
        last = id;
        match server.object(id) {
            Some(HandleObject::Buffer(b)) => assert_eq!(b.as_slice(), &[round]),
            _ => panic!("no buffer"),
        }
        let kept = server.finish_request(Some(vec![round, round]));
        assert!(server.drop_handle(id));
        assert!(server.object(id).is_none());
        match server.object(kept) {
            Some(HandleObject::Buffer(b)) => assert_eq!(b.len(), 2),
            _ => panic!("no buffer"),
        }
        last = kept;
    }
}
