use livekit_portal::bytes::{send_options, send_result, ByteStreamRegistry};
use livekit_portal::codec::Codec;
use livekit_portal::config::{FieldSpec, PortalConfig};
use livekit_portal::data::{
    accept_row, apply_carry_forward, handle_data_received, route, settle, DataPublisher, DataSlots,
    DataStream, DecodeError, Fingerprints, Incoming, OutgoingPacket, QueueOutcome, Route, ACTION_TOPIC,
    RTT_TOPIC, STATE_TOPIC,
};
use livekit_portal::double::{Double, Single};
use livekit_portal::dtype::DType;
use livekit_portal::error::{PortalError, RpcError};
use livekit_portal::field_map::FieldMap;
use livekit_portal::metrics::{BufferMetrics, PolicyMetrics, RttMetrics, SyncMetrics};
use livekit_portal::rtt::{answer_rtt, RttStep};
use livekit_portal::samples::{Jitter, SampleWindow, SAMPLE_WINDOW};
use livekit_portal::serialization::deserialize_values;
use livekit_portal::sync_model::SyncEvent;
use livekit_portal::text::{push_decimal, push_hex, push_wide_decimal, same_text};
use livekit_portal::types::Role;
use livekit_portal::video::{check_frame, join_planes, DEFAULT_HEIGHT, DEFAULT_WIDTH};
use livekit_portal::window::search_window;

fn d(v: f64) -> Double {
    Double::from_bits(v.to_bits())
}

fn fs(vs: &[Double]) -> Vec<f64> {
    vs.iter().map(|v| f64::from_bits(v.to_bits())).collect()
}

fn map(pairs: &[(&str, f64)]) -> FieldMap<Double> {
    let mut m = FieldMap::new();
    for (k, v) in pairs {
        m.insert(k.to_string(), d(*v));
    }
    m
}

fn field(name: &str, dtype: DType) -> FieldSpec {
    FieldSpec::new(name.to_string(), dtype)
}

fn decoded(packet: &OutgoingPacket, schema: &[DType]) -> (u64, Vec<f64>) {
    let (ts, values) = deserialize_values(&packet.payload, schema).unwrap();
    (ts, fs(&values))
}

#[test]
fn carry_forward_fills_missing_fields() {
    let schema =
        vec![field("j1", DType::F64), field("j2", DType::F64), field("j3", DType::F64)];
    let mut last = vec![d(0.0); 3];

    apply_carry_forward(&schema, &mut last, &map(&[("j1", 1.0)]));
    assert_eq!(fs(&last), vec![1.0, 0.0, 0.0], "unsent fields start at seed (0.0)");

    apply_carry_forward(&schema, &mut last, &map(&[("j2", 2.5)]));
    assert_eq!(
        fs(&last),
        vec![1.0, 2.5, 0.0],
        "j1 carries forward; j2 updates; j3 still at seed"
    );

    apply_carry_forward(&schema, &mut last, &map(&[("j1", -1.0), ("j3", 7.0)]));
    assert_eq!(
        fs(&last),
        vec![-1.0, 2.5, 7.0],
        "j2 carries forward when omitted; others update"
    );
}

#[test]
fn a_publisher_stamps_and_carries_forward() {
    let schema = [DType::F64, DType::I8];
    let mut p = DataPublisher::new(
        vec![field("j1", DType::F64), field("j2", DType::I8)],
        7,
        STATE_TOPIC,
        true,
    );
    let packet = p.send_map(&map(&[("j1", 1.5)]), None, None, 77);
    assert_eq!(decoded(&packet, &schema), (77, vec![1.5, 0.0]));
    assert_eq!(packet.topic, "portal_state");
    assert!(packet.reliable);
    assert_eq!(packet.fingerprint, 7);
    let packet = p.send_map(&map(&[("j2", -3.0)]), Some(5), None, 78);
    assert_eq!(decoded(&packet, &schema), (5, vec![1.5, -3.0]));
}

#[test]
fn unknown_and_saturated_fields_are_reported_once() {
    let mut p = DataPublisher::new(
        vec![field("a", DType::I8), field("b", DType::Bool), field("c", DType::U16)],
        7,
        ACTION_TOPIC,
        false,
    );
    let first = p.send_map(
        &map(&[("typo", 1.0), ("a", 9999.0), ("b", f64::NAN), ("c", 65535.0)]),
        None,
        None,
        0,
    );
    assert_eq!(first.unknown_keys, vec!["typo".to_string()]);
    assert_eq!(first.saturated, vec![0, 1]);
    assert_eq!(
        decoded(&first, &[DType::I8, DType::Bool, DType::U16]).1,
        vec![127.0, 0.0, 65535.0]
    );
    let second = p.send_map(&map(&[("typo", 1.0), ("other", 2.0), ("c", -1.0)]), None, None, 0);
    assert_eq!(second.unknown_keys, vec!["other".to_string()]);
    assert_eq!(second.saturated, vec![2]);
    let third = p.send_map(&map(&[("other", 2.0)]), None, None, 0);
    assert!(third.unknown_keys.is_empty());
    assert!(third.saturated.is_empty());
}

#[test]
fn boundary_values_do_not_saturate() {
    assert!(!DType::I8.saturates(d(127.0)));
    assert!(!DType::I8.saturates(d(-128.0)));
    assert!(DType::I8.saturates(d(128.0)));
    assert!(DType::I8.saturates(d(-129.0)));
    assert!(!DType::U16.saturates(d(65535.0)));
    assert!(DType::U16.saturates(d(65536.0)));
    for dtype in [DType::U8, DType::U16, DType::U32] {
        assert!(!dtype.saturates(d(0.0)));
        assert!(dtype.saturates(d(-1.0)));
        assert!(dtype.saturates(d(f64::INFINITY)));
        assert!(dtype.saturates(d(f64::NAN)));
    }
    assert!(!DType::U32.saturates(d(4294967295.0)));
    assert!(DType::U32.saturates(d(4294967296.0)));
    assert!(!DType::I32.saturates(d(-2147483648.0)));
    assert!(DType::I32.saturates(d(2147483648.0)));
    assert!(!DType::I16.saturates(d(-32768.0)));
    assert!(DType::I16.saturates(d(32768.0)));
    assert!(DType::Bool.saturates(d(f64::NAN)));
    assert!(!DType::Bool.saturates(d(1e9)));
    assert!(!DType::F32.saturates(d(1e300)));
    assert!(!DType::F64.saturates(d(f64::NAN)));
}

#[test]
fn the_queue_decides_what_counts_as_sent() {
    assert_eq!(settle(STATE_TOPIC, QueueOutcome::Queued), (true, None));
    assert_eq!(settle(STATE_TOPIC, QueueOutcome::Closed), (false, None));
    assert_eq!(
        settle(STATE_TOPIC, QueueOutcome::Full),
        (
            false,
            Some(
                "publish queue full for topic 'portal_state' (cap=1024); dropping packet"
                    .to_string()
            )
        )
    );
}

#[test]
fn packets_are_routed_by_role_and_topic() {
    assert_eq!(route(Role::Robot, ACTION_TOPIC), Route::Stream(DataStream::Action));
    assert_eq!(route(Role::Operator, STATE_TOPIC), Route::Stream(DataStream::State));
    assert_eq!(route(Role::Robot, STATE_TOPIC), Route::Ignored);
    assert_eq!(route(Role::Operator, ACTION_TOPIC), Route::Ignored);
    assert_eq!(route(Role::Robot, RTT_TOPIC), Route::Rtt);
    assert_eq!(route(Role::Operator, RTT_TOPIC), Route::Rtt);
    assert_eq!(route(Role::Robot, "chat"), Route::Ignored);
}

#[test]
fn received_rows_come_out_by_field() {
    let action = [field("x", DType::F64)];
    let state = [field("y", DType::U8)];
    let mut a = DataSlots::new();
    let mut s = DataSlots::new();
    let mut p = DataPublisher::new(vec![field("x", DType::F64)], 7, ACTION_TOPIC, true);
    let payload = p.send_map(&map(&[("x", 2.25)]), Some(9), None, 0).payload;
    match handle_data_received(&payload, ACTION_TOPIC, None, Role::Robot, &action, &state, &mut a, &mut s)
    {
        Incoming::Row(DataStream::Action, sample) => {
            assert_eq!(sample.timestamp_us, 9);
            assert_eq!(fs(&sample.values), vec![2.25]);
            assert_eq!(*sample.fields.get("x").unwrap(), d(2.25));
            a.deliver(sample);
        }
        _ => panic!("no row"),
    }
    assert_eq!(a.latest().unwrap().timestamp_us, 9);
    a.clear();
    assert!(a.latest().is_none());

    match handle_data_received(&payload, STATE_TOPIC, None, Role::Operator, &action, &state, &mut a, &mut s)
    {
        Incoming::Malformed(DataStream::State, text) => assert_eq!(
            text,
            "failed to deserialize state payload: deserialization error: \
             expected 9 bytes, got 16"
        ),
        _ => panic!("a row of another length is no row"),
    }
    assert!(matches!(
        handle_data_received(&payload, "chat", None, Role::Robot, &action, &state, &mut a, &mut s),
        Incoming::Ignored
    ));
    assert!(matches!(
        handle_data_received(&[1], RTT_TOPIC, None, Role::Robot, &action, &state, &mut a, &mut s),
        Incoming::Rtt
    ));
}

#[test]
fn another_schema_is_reported_once_per_fingerprint() {
    let mut slots = DataSlots::new();
    let mismatch = |got| Err(DecodeError::SchemaMismatch { expected: 0xab, got });
    let expected = "topic 'portal_action': dropping packet with schema fingerprint 0x00000c0d \
                    (expected 0x000000ab); peer's schema disagrees with ours";
    match accept_row(DataStream::Action, mismatch(0xc0d), ACTION_TOPIC, &[], &mut slots) {
        Incoming::Mismatch(DataStream::Action, Some(text)) => assert_eq!(text, expected),
        _ => panic!("not reported"),
    }
    assert!(matches!(
        accept_row(DataStream::Action, mismatch(0xc0d), ACTION_TOPIC, &[], &mut slots),
        Incoming::Mismatch(DataStream::Action, None)
    ));
    assert!(matches!(
        accept_row(DataStream::Action, mismatch(0xc0e), ACTION_TOPIC, &[], &mut slots),
        Incoming::Mismatch(DataStream::Action, Some(_))
    ));
    match accept_row(
        DataStream::Action,
        Err(DecodeError::Malformed("why".to_string())),
        ACTION_TOPIC,
        &[],
        &mut slots,
    ) {
        Incoming::Malformed(DataStream::Action, text) => {
            assert_eq!(text, "failed to deserialize action payload: why");
        }
        _ => panic!("not reported"),
    }
}

#[test]
fn a_new_configuration_has_the_documented_defaults() {
    let config = PortalConfig::new("s".to_string(), Role::Robot);
    assert_eq!(config.session(), "s");
    assert_eq!(config.role(), Role::Robot);
    assert_eq!(config.fps(), 30);
    assert_eq!(f32::from_bits(config.tolerance().bits), 1.5);
    assert_eq!(config.ping_ms(), 1000);
    assert!(config.state_reliable());
    assert!(config.action_reliable());
    assert!(config.shared_key().is_none());
    let sync = config.sync_config();
    assert_eq!(sync.search_range_us, 50_000);
    assert_eq!((sync.video_buffer_size, sync.state_buffer_size), (5, 5));
    assert_eq!(sync.observation_buffer_size, 5);
    assert!(!sync.reuse_stale_frames);
}

#[test]
fn declarations_add_up_in_order() {
    let mut config = PortalConfig::new("s".to_string(), Role::Operator);
    config.add_video("cam1".to_string());
    config.add_frame_video("cam2".to_string(), Codec::Png, 0);
    config.add_video("cam3".to_string());
    config.add_state_typed(vec![field("a", DType::F32)]);
    config.add_state_typed(vec![field("b", DType::Bool)]);
    config.add_action_typed(vec![field("c", DType::I8)]);
    config.add_action_chunk("plan".to_string(), 16, vec![field("c", DType::F32)]);
    config.set_fps(60);
    config.set_slack(7);
    config.set_tolerance(Single { bits: 2.0f32.to_bits() });
    config.set_state_reliable(false);
    config.set_action_reliable(false);
    config.set_ping_ms(0);
    config.set_reuse_stale_frames(true);
    config.set_shared_key(vec![1, 2, 3]);
    let copy = config.copy();
    assert_eq!(copy.video_tracks(), &["cam1".to_string(), "cam3".to_string()]);
    assert_eq!(copy.combined_track_names(), vec!["cam1", "cam3", "cam2"]);
    assert_eq!(copy.frame_video_tracks()[0].codec, Codec::Png);
    assert_eq!(copy.state_fields(), vec!["a", "b"]);
    assert_eq!(copy.action_fields(), vec!["c"]);
    assert_eq!(copy.state_schema()[1].dtype, DType::Bool);
    assert!(copy.has_chunk("plan"));
    assert!(!copy.has_chunk("c"));
    assert_eq!(copy.action_chunks()[0].horizon, 16);
    assert_eq!((copy.fps(), copy.ping_ms()), (60, 0));
    assert!(!copy.state_reliable());
    assert!(!copy.action_reliable());
    assert_eq!(copy.shared_key(), Some(&vec![1, 2, 3]));
    let sync = copy.sync_config();
    assert_eq!((sync.video_buffer_size, sync.search_range_us), (7, 33_333));
    assert!(sync.reuse_stale_frames);
}

#[test]
fn every_error_has_its_message() {
    let name = || "n".to_string();
    let table = [
        (PortalError::Room(name()), "room error: n"),
        (PortalError::AlreadyConnected, "portal is already connected"),
        (PortalError::UnknownVideoTrack { name: name() }, "unknown video track: n"),
        (
            PortalError::WrongValueCount { expected: 3, got: 12 },
            "wrong number of values: expected 3, got 12",
        ),
        (PortalError::Deserialization(name()), "deserialization error: n"),
        (PortalError::WrongRole(Role::Robot), "operation not available for role Robot"),
        (PortalError::WrongRole(Role::Operator), "operation not available for role Operator"),
    ];
    for (e, text) in table {
        assert_eq!(e.message(), text);
    }
    for e in [
        PortalError::NotConnected,
        PortalError::NoPeer,
        PortalError::AmbiguousPeer,
        PortalError::UnknownChunk { name: name() },
        PortalError::WrongFrameSize { expected: 1, got: 2 },
        PortalError::InvalidFrameDimensions { width: 3, height: 4 },
        PortalError::DtypeMismatch { field: name(), expected: DType::Bool, got: name() },
        PortalError::Rpc(RpcError::new(7, name(), None)),
        PortalError::DataTrack(name()),
        PortalError::Internal(name()),
    ] {
        assert!(!e.message().is_empty());
    }
}

#[test]
fn frames_are_checked_before_they_are_sent() {
    assert_eq!(check_frame(&[0; 12], 2, 2, Some(8), 9).unwrap(), 8);
    assert_eq!(check_frame(&[0; 12], 2, 2, None, 9).unwrap(), 9);
    assert!(matches!(
        check_frame(&[0; 9], 3, 1, None, 9),
        Err(PortalError::InvalidFrameDimensions { width: 3, height: 1 })
    ));
    assert!(matches!(
        check_frame(&[0; 11], 2, 2, None, 9),
        Err(PortalError::WrongFrameSize { expected: 12, got: 11 })
    ));
    assert_eq!((DEFAULT_WIDTH, DEFAULT_HEIGHT), (640, 480));
    let frame = join_planes(&[1, 2, 3, 4], &[5], &[6], 2, 2, 99);
    assert_eq!(frame.data, vec![1, 2, 3, 4, 5, 6]);
    assert_eq!((frame.width, frame.height, frame.timestamp_us), (2, 2, 99));
}

#[test]
fn byte_streams_are_dispatched_by_topic() {
    let mut registry = ByteStreamRegistry::new();
    registry.insert("a", 1);
    registry.insert("b", 2);
    registry.insert("a", 3);
    assert_eq!(registry.get("a"), Some(3));
    assert_eq!(registry.dispatch_byte_stream_opened("b"), Some(2));
    registry.remove("b");
    assert_eq!(registry.dispatch_byte_stream_opened("b"), None);

    let options = send_options("t", Some("peer"));
    assert_eq!((options.topic.as_str(), options.destinations), ("t", vec!["peer".to_string()]));
    assert!(send_options("t", None).destinations.is_empty());
    assert!(send_result(Ok(())).is_ok());
    assert_eq!(
        send_result(Err("gone".to_string())).unwrap_err().message(),
        "room error: send_bytes: gone"
    );
}

#[test]
fn metrics_count_what_the_buffer_reports() {
    let mut sync = SyncMetrics {
        observations_emitted: u64::MAX,
        stale_observations_emitted: 0,
        states_dropped: 1,
        match_delta_us_p50: None,
        match_delta_us_p95: None,
        last_blocker_track: None,
    };
    let tracks = ["cam1".to_string(), "cam2".to_string()];
    let mut deltas = SampleWindow::new();
    sync.count(SyncEvent::Observed { worst_delta_us: 4, stale: true }, &tracks, &mut deltas);
    sync.count(SyncEvent::StatesDropped { count: 3 }, &tracks, &mut deltas);
    sync.count(SyncEvent::Blocked { track: 1 }, &tracks, &mut deltas);
    sync.count(SyncEvent::FramesEvicted { track: 0, count: 9 }, &tracks, &mut deltas);
    assert_eq!((sync.match_delta_us_p50, sync.match_delta_us_p95), (Some(4), Some(4)));
    assert_eq!(deltas.len(), 1);
    assert_eq!(sync.observations_emitted, 0);
    assert_eq!(sync.stale_observations_emitted, 1);
    assert_eq!(sync.states_dropped, 4);
    assert_eq!(sync.last_blocker_track.as_deref(), Some("cam2"));

    let mut buffers = BufferMetrics {
        video_fill: FieldMap::new(),
        state_fill: 0,
        evictions: FieldMap::new(),
    };
    buffers.record_evictions("cam1", 2);
    buffers.record_evictions("cam1", 3);
    assert_eq!(buffers.evictions.get("cam1"), Some(&5));
}

#[test]
fn field_maps_keep_one_value_per_name() {
    let mut m = map(&[("a", 1.0), ("b", 2.0), ("a", 3.0)]);
    assert_eq!(m.len(), 2);
    assert_eq!(m.get("a"), Some(&d(3.0)));
    assert_eq!(m.remove("a"), Some(d(3.0)));
    assert_eq!(m.remove("a"), None);
    assert!(!m.contains_key("a"));
    assert_eq!((m.name_at(0), *m.value_at(0)), ("b", d(2.0)));
}

#[test]
fn numbers_are_written_out() {
    for n in [0u64, 7, 10, 99, 1_000_000, u64::MAX] {
        let mut text = String::new();
        push_decimal(&mut text, n);
        assert_eq!(text, n.to_string());
    }
    let mut text = "x".to_string();
    push_wide_decimal(&mut text, u128::MAX);
    assert_eq!(text, format!("x{}", u128::MAX));
    let mut text = String::new();
    push_hex(&mut text, 0xdead_0f00, 8);
    assert_eq!(text, "dead0f00");
    assert!(same_text("abc", "abc"));
    assert!(!same_text("abc", "abd"));
    assert!(!same_text("abc", "ab"));
    assert_eq!(Role::Robot.identity(), "robot");
    assert_eq!(Role::Operator.identity(), "operator");
}

#[test]
fn the_search_window_is_the_single_precision_quotient() {
    let window = |t: f32, fps: u32| search_window(Single { bits: t.to_bits() }, fps);
    assert_eq!(window(1.5, 30), 50_000);
    assert_eq!(window(0.25, 60), 4_166);
    assert_eq!(window(0.9, 30), 30_000);
    assert_eq!(window(f32::INFINITY, 30), u64::MAX);
    assert_eq!(window(f32::MAX, 30), u64::MAX);
    assert_eq!(window(1.0, 0), u64::MAX);
    assert_eq!(window(f32::from_bits(1), 1), 0);
    assert_eq!(window(f32::NAN, 30), 0);
    assert_eq!(window(-1.0, 30), 0);
    assert_eq!(window(0.0, 0), 0);
}

#[test]
fn the_search_window_agrees_with_the_machine() {
    let rates = [0, 1, 2, 3, 7, 24, 30, 60, 144, 999, 16_777_215, 16_777_217, 16_777_219, u32::MAX];
    let mut bits: u64 = 0;
    while bits <= 0xffff_ffff {
        let t = f32::from_bits(bits as u32);
        for fps in rates {
            let expected = (t * 1_000_000.0 / fps as f32) as u64;
            assert_eq!(search_window(Single { bits: t.to_bits() }, fps), expected, "{t} at {fps}");
        }
        bits += 0x3_7f13;
    }
}

#[test]
fn percentiles_are_taken_over_the_recent_samples() {
    let mut window = SampleWindow::new();
    assert_eq!(window.percentile(50), None);
    assert_eq!(window.mean(), None);
    for v in [30u64, 10, 20, 40] {
        window.record(v);
    }
    assert_eq!(window.percentile(50), Some(20));
    assert_eq!(window.percentile(95), Some(40));
    assert_eq!(window.percentile(1), Some(10));
    assert_eq!(window.mean(), Some(25));
    for v in 0..1_000u64 {
        window.record(v);
    }
    // 744 to 999 are left.
    assert_eq!(window.len(), SAMPLE_WINDOW);
    assert_eq!(window.percentile(50), Some(871));
    assert_eq!(window.percentile(95), Some(987));
    assert_eq!(window.percentile(100), Some(999));
    window.record(u64::MAX);
    assert_eq!(window.percentile(1), Some(747));
}

#[test]
fn jitter_follows_a_sixteenth_of_the_way() {
    let mut jitter = Jitter::new();
    jitter.observe(1_000, 5_000);
    assert_eq!(jitter.value_us(), 0);
    // Sent a thousand apart, received 2600 apart.
    jitter.observe(2_000, 7_600);
    assert_eq!(jitter.value_us(), 100);
    // Early by as much.
    jitter.observe(3_000, 7_000);
    assert_eq!(jitter.value_us(), 193);
    // In step again.
    jitter.observe(4_000, 8_000);
    assert_eq!(jitter.value_us(), 181);
    let mut far = Jitter::new();
    far.observe(0, u64::MAX);
    far.observe(u64::MAX, 0);
    assert_eq!(far.value_us(), u64::MAX / 8);
}

#[test]
fn round_trips_and_answers_are_measured() {
    let mut rtt = RttMetrics {
        rtt_us_last: None,
        rtt_us_mean: None,
        rtt_us_p95: None,
        pings_sent: 3,
        pongs_received: 0,
    };
    let mut trips = SampleWindow::new();
    // A ping is sent back as it came and is not measured.
    assert_eq!(rtt.handle_packet(true, 77, 90, &mut trips), Some(77));
    assert_eq!((rtt.pongs_received, trips.len()), (0, 0));
    assert_eq!(rtt.handle_packet(false, 100, 150, &mut trips), None);
    assert_eq!(rtt.handle_packet(false, 200, 310, &mut trips), None);
    rtt.record_ping();
    assert_eq!((rtt.rtt_us_last, rtt.rtt_us_mean, rtt.rtt_us_p95), (Some(110), Some(80), Some(110)));
    assert_eq!((rtt.pings_sent, rtt.pongs_received), (4, 2));
    assert_eq!(rtt.handle_packet(false, 9, 8, &mut trips), None);
    assert_eq!(rtt.rtt_us_last, Some(0));

    let mut policy =
        PolicyMetrics { e2e_us_p50: None, e2e_us_p95: None, correlated_received: 0 };
    let mut answers = SampleWindow::new();
    policy.record(None, 5, &mut answers);
    assert_eq!((policy.e2e_us_p50, policy.correlated_received), (None, 0));
    policy.record(Some(1_000), 41_000, &mut answers);
    assert_eq!((policy.e2e_us_p50, policy.e2e_us_p95), (Some(40_000), Some(40_000)));
    assert_eq!(policy.correlated_received, 1);
}

#[test]
fn a_row_of_another_schema_is_dropped() {
    let ours = vec![field("b", DType::F64)];
    let mut p = DataPublisher::new(vec![field("a", DType::F64)], 7, ACTION_TOPIC, true);
    let payload = p.send_map(&map(&[("a", 1.0)]), Some(1), None, 0).payload;
    let mut a = DataSlots::new();
    let mut s = DataSlots::new();
    let other = Some(Fingerprints { local: 1, carried: 2 });
    match handle_data_received(&payload, ACTION_TOPIC, other, Role::Robot, &ours, &[], &mut a, &mut s)
    {
        Incoming::Mismatch(DataStream::Action, Some(text)) => assert_eq!(
            text,
            "topic 'portal_action': dropping packet with schema fingerprint 0x00000002 \
             (expected 0x00000001); peer's schema disagrees with ours"
        ),
        _ => panic!("delivered"),
    }
    assert!(matches!(
        handle_data_received(&payload, ACTION_TOPIC, other, Role::Robot, &ours, &[], &mut a, &mut s),
        Incoming::Mismatch(DataStream::Action, None)
    ));
    assert!(a.latest().is_none());
    let same = Some(Fingerprints { local: 2, carried: 2 });
    assert!(matches!(
        handle_data_received(&payload, ACTION_TOPIC, same, Role::Robot, &ours, &[], &mut a, &mut s),
        Incoming::Row(DataStream::Action, _)
    ));
}

#[test]
fn odd_sizes_are_refused_whatever_the_length() {
    for (width, height) in [(65_537u32, 65_536u32), (u32::MAX, u32::MAX), (2, 1)] {
        match check_frame(&[], width, height, None, 0) {
            Err(PortalError::InvalidFrameDimensions { width: w, height: h }) => {
                assert_eq!((w, h), (width, height))
            }
            _ => panic!("accepted"),
        }
    }
}

#[test]
fn a_ping_is_echoed_and_its_answer_measured() {
    assert_eq!(answer_rtt(true, 5, 900), RttStep::Echo(5));
    assert_eq!(answer_rtt(false, 5, 900), RttStep::Measured(895));
    assert_eq!(answer_rtt(false, 900, 5), RttStep::Measured(0));
    let mut config = PortalConfig::new("s".to_string(), Role::Robot);
    assert_eq!(config.ping_interval_ms(), Some(1000));
    config.set_ping_ms(0);
    assert_eq!(config.ping_interval_ms(), None);
}

#[test]
fn frames_of_any_even_size_are_measured() {
    let cases: [(u32, u32, u128); 3] = [
        (0x1_0000, 0x1_0000, 0x3_0000_0000),
        (0x8000_0000, 0x8000_0000, 3 << 62),
        (0xffff_fffe, 0xffff_fffe, 0xffff_fffe * 0xffff_fffe * 3),
    ];
    for (width, height, n) in cases {
        match check_frame(&[0; 3], width, height, None, 0) {
            Err(PortalError::WrongFrameSize { expected, got }) => {
                assert_eq!((expected, got), (n, 3))
            }
            _ => panic!("accepted"),
        }
    }
    let widest = check_frame(&[], 0xffff_fffe, 0xffff_fffe, None, 0).unwrap_err();
    assert_eq!(
        widest.message(),
        "wrong frame size: expected 55340232169589047308 bytes, got 0"
    );
}

#[test]
fn a_name_is_taken_on_both_transports() {
    let mut config = PortalConfig::new("s".to_string(), Role::Robot);
    config.add_video("a".to_string());
    config.add_frame_video("b".to_string(), Codec::Raw, 0);
    assert!(config.declares_track("a"));
    assert!(config.declares_track("b"));
    assert!(!config.declares_track("c"));
}
