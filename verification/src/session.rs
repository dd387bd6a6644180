//! A portal for plain fields: every value is a double, every picture is planar, and
//! observations are pulled.

use std::sync::Arc;

use vstd::prelude::*;

use crate::config::copy_texts;
use crate::data::{DataStream, ACTION_TOPIC, STATE_TOPIC};
use crate::double::Double;
use crate::dtype::{carried, decodes_to, DType};
use crate::error::{ErrorView, PortalError, PortalResult};
use crate::field_map::{collect, FieldMap};
use crate::pull::{unique, PullOutput, PullView, SyncBuffer};
use crate::serialization::{
    deserialize_values, field_bytes, law_row_survives, lemma_row_len, payload_size, row,
    row_decodes_to, serialize_values,
};
use crate::sync_model::StateView;
use crate::text::{has_text, same_text};
use crate::types::{paired, texts, to_field_map, Role, SyncConfig, VideoFrameData};
use crate::wire::{le_value, lemma_le_value_bound, pow256};

verus! {

/// The configuration of a session, built up before it connects.
pub struct PortalConfig {
    role: Role,
    video_tracks: Vec<String>,
    state_fields: Vec<String>,
    action_fields: Vec<String>,
    sync_config: SyncConfig,
}

/// What a configuration says.
#[verifier::ext_equal]
pub struct SessionConfigView {
    pub role: Role,
    pub video_tracks: Seq<Seq<char>>,
    pub state_fields: Seq<Seq<char>>,
    pub action_fields: Seq<Seq<char>>,
    pub sync_config: SyncConfig,
}

/// The synchronisation settings that hold unless others are given.
pub open spec fn default_sync() -> SyncConfig {
    SyncConfig {
        video_buffer_size: 30,
        state_buffer_size: 30,
        search_range_us: 30_000,
        observation_buffer_size: 10,
        reuse_stale_frames: false,
    }
}

impl View for PortalConfig {
    type V = SessionConfigView;

    closed spec fn view(&self) -> SessionConfigView {
        SessionConfigView {
            role: self.role,
            video_tracks: texts(self.video_tracks@),
            state_fields: texts(self.state_fields@),
            action_fields: texts(self.action_fields@),
            sync_config: self.sync_config,
        }
    }
}

impl PortalConfig {
    pub fn new(role: Role) -> (config: PortalConfig)
        ensures
            config@ == (SessionConfigView {
                role,
                video_tracks: Seq::empty(),
                state_fields: Seq::empty(),
                action_fields: Seq::empty(),
                sync_config: default_sync(),
            }),
    {
        let config = PortalConfig {
            role,
            video_tracks: Vec::new(),
            state_fields: Vec::new(),
            action_fields: Vec::new(),
            sync_config: SyncConfig::default(),
        };
        assert(config@.video_tracks =~= Seq::empty());
        assert(config@.state_fields =~= Seq::empty());
        assert(config@.action_fields =~= Seq::empty());
        config
    }

    pub fn add_video(&mut self, name: String)
        ensures
            final(self)@ == (SessionConfigView {
                video_tracks: old(self)@.video_tracks.push(name@),
                ..old(self)@
            }),
    {
        self.video_tracks.push(name);
        assert(self@.video_tracks =~= old(self)@.video_tracks.push(name@));
    }

    /// Sets the state fields in place of any earlier ones.
    pub fn add_state(&mut self, fields: Vec<String>)
        ensures
            final(self)@ == (SessionConfigView { state_fields: texts(fields@), ..old(self)@ }),
    {
        self.state_fields = fields;
    }

    /// Sets the action fields in place of any earlier ones.
    pub fn add_action(&mut self, fields: Vec<String>)
        ensures
            final(self)@ == (SessionConfigView { action_fields: texts(fields@), ..old(self)@ }),
    {
        self.action_fields = fields;
    }

    pub fn set_video_buffer(&mut self, size: u32)
        ensures
            final(self)@ == (SessionConfigView {
                sync_config: SyncConfig { video_buffer_size: size, ..old(self)@.sync_config },
                ..old(self)@
            }),
    {
        self.sync_config.video_buffer_size = size;
    }

    pub fn set_state_buffer(&mut self, size: u32)
        ensures
            final(self)@ == (SessionConfigView {
                sync_config: SyncConfig { state_buffer_size: size, ..old(self)@.sync_config },
                ..old(self)@
            }),
    {
        self.sync_config.state_buffer_size = size;
    }

    pub fn set_search_range_ms(&mut self, ms: u64)
        requires
            ms * 1000 <= u64::MAX,
        ensures
            final(self)@ == (SessionConfigView {
                sync_config: SyncConfig {
                    search_range_us: (ms * 1000) as u64,
                    ..old(self)@.sync_config
                },
                ..old(self)@
            }),
    {
        self.sync_config.search_range_us = ms * 1000;
    }

    pub fn set_observation_buffer(&mut self, size: u32)
        ensures
            final(self)@ == (SessionConfigView {
                sync_config: SyncConfig { observation_buffer_size: size, ..old(self)@.sync_config },
                ..old(self)@
            }),
    {
        self.sync_config.observation_buffer_size = size;
    }

    /// A copy of the configuration.
    pub fn snapshot(&self) -> (config: PortalConfig)
        ensures
            config@ == self@,
    {
        PortalConfig {
            role: self.role,
            video_tracks: copy_texts(&self.video_tracks),
            state_fields: copy_texts(&self.state_fields),
            action_fields: copy_texts(&self.action_fields),
            sync_config: self.sync_config,
        }
    }
}

/// As many doubles as there are fields.
pub open spec fn doubles(n: nat) -> Seq<DType> {
    Seq::new(n, |i: int| DType::F64)
}

fn double_schema(n: usize) -> (schema: Vec<DType>)
    ensures
        schema@ == doubles(n as nat),
{
    let mut schema: Vec<DType> = Vec::new();
    while schema.len() < n
        invariant
            schema@.len() <= n,
            forall|i: int| 0 <= i < schema@.len() ==> #[trigger] schema@[i] == DType::F64,
        decreases n - schema@.len(),
    {
        schema.push(DType::F64);
    }
    assert(schema@ =~= doubles(n as nat));
    schema
}

/// Publishes rows of doubles.
pub struct DataPublisher {
    fields: Vec<String>,
}

impl View for DataPublisher {
    type V = Seq<Seq<char>>;

    closed spec fn view(&self) -> Seq<Seq<char>> {
        texts(self.fields@)
    }
}

/// The values of a row in the order of the fields; what it does not name is zero.
pub open spec fn zero_filled(fields: Seq<Seq<char>>, map: Map<Seq<char>, Double>) -> Seq<Double> {
    Seq::new(
        fields.len(),
        |i: int|
            if map.contains_key(fields[i]) {
                map[fields[i]]
            } else {
                Double { bits: 0 }
            },
    )
}

impl DataPublisher {
    pub fn new(fields: Vec<String>) -> (publisher: DataPublisher)
        ensures
            publisher@ == texts(fields@),
    {
        DataPublisher { fields }
    }

    /// The packet for values in the order of the fields.
    pub fn send(&self, values: &[Double], timestamp_us: Option<u64>, now_us: u64) -> (payload:
        PortalResult<Vec<u8>>)
        ensures
            match payload {
                Ok(bytes) => values@.len() == self@.len() && bytes@ == row(
                    match timestamp_us {
                        Some(ts) => ts,
                        None => now_us,
                    },
                    values@,
                    doubles(self@.len()),
                ),
                Err(e) => values@.len() != self@.len() && e@ == (ErrorView::WrongValueCount {
                    expected: self@.len(),
                    got: values@.len(),
                }),
            },
    {
        if values.len() != self.fields.len() {
            return Err(
                PortalError::WrongValueCount {
                    expected: self.fields.len() as u128,
                    got: values.len(),
                },
            );
        }
        let ts: u64 = match timestamp_us {
            Some(ts) => ts,
            None => now_us,
        };
        let schema: Vec<DType> = double_schema(self.fields.len());
        Ok(serialize_values(ts, values, schema.as_slice()))
    }

    /// The packet for a row.
    pub fn send_map(
        &self,
        map: &FieldMap<Double>,
        timestamp_us: Option<u64>,
        now_us: u64,
    ) -> (payload: PortalResult<Vec<u8>>)
        ensures
            payload matches Ok(bytes) && bytes@ == row(
                match timestamp_us {
                    Some(ts) => ts,
                    None => now_us,
                },
                zero_filled(self@, map@),
                doubles(self@.len()),
            ),
    {
        let mut values: Vec<Double> = Vec::new();
        let mut i: usize = 0;
        while i < self.fields.len()
            invariant
                i <= self.fields@.len(),
                values@.len() == i,
                forall|j: int|
                    0 <= j < i ==> #[trigger] values@[j] == zero_filled(self@, map@)[j],
            decreases self.fields@.len() - i,
        {
            assert(self@[i as int] == self.fields@[i as int]@);
            values.push(
                match map.get(self.fields[i].as_str()) {
                    Some(v) => *v,
                    None => Double::from_bits(0),
                },
            );
            i += 1;
        }
        assert(values@ =~= zero_filled(self@, map@));
        self.send(values.as_slice(), timestamp_us, now_us)
    }

    pub fn fields(&self) -> (fields: &[String])
        ensures
            texts(fields@) == self@,
    {
        self.fields.as_slice()
    }
}

proof fn lemma_doubles_size(n: nat)
    ensures
        payload_size(doubles(n)) == 8 * n,
    decreases n,
{
    if n > 0 {
        assert(doubles(n).drop_last() =~= doubles((n - 1) as nat));
        lemma_doubles_size((n - 1) as nat);
    }
}

/// The time of a packet.
pub open spec fn time_in(payload: Seq<u8>) -> u64 {
    le_value(payload.take(8)) as u64
}

/// The `n` doubles of a packet.
pub open spec fn doubles_in(payload: Seq<u8>, n: nat) -> Seq<Double> {
    Seq::new(
        n,
        |i: int| Double { bits: le_value(payload.subrange(8 + 8 * i, 16 + 8 * i)) as u64 },
    )
}

proof fn lemma_row_is_doubles(payload: Seq<u8>, n: nat, timestamp_us: u64, values: Seq<Double>)
    requires
        row_decodes_to(payload, doubles(n), timestamp_us, values),
    ensures
        timestamp_us == time_in(payload),
        values == doubles_in(payload, n),
{
    let schema = doubles(n);
    assert forall|i: int| 0 <= i < n implies values[i] == doubles_in(payload, n)[i] by {
        lemma_doubles_size(i as nat);
        assert(schema.take(i) =~= doubles(i as nat));
        assert(field_bytes(payload, schema, i) == payload.subrange(8 + 8 * i, 16 + 8 * i));
    }
    assert(values =~= doubles_in(payload, n));
}

/// Reads a row of doubles; a packet of another length is passed over.
pub fn receive_row(payload: &[u8], fields: usize) -> (row: Option<(u64, Vec<Double>)>)
    ensures
        match row {
            Some((timestamp_us, values)) => payload@.len() == 8 + 8 * fields && timestamp_us
                == time_in(payload@) && values@ == doubles_in(payload@, fields as nat),
            None => payload@.len() != 8 + 8 * fields,
        },
{
    let schema: Vec<DType> = double_schema(fields);
    proof {
        lemma_doubles_size(fields as nat);
    }
    match deserialize_values(payload, schema.as_slice()) {
        Ok((timestamp_us, values)) => {
            proof {
                lemma_row_is_doubles(payload@, fields as nat, timestamp_us, values@);
            }
            Some((timestamp_us, values))
        },
        Err(_) => None,
    }
}

/// A row of doubles arrives unchanged, bit by bit.
pub proof fn law_doubles_arrive_unchanged(timestamp_us: u64, values: Seq<Double>)
    ensures
        row(timestamp_us, values, doubles(values.len())).len() == 8 + 8 * values.len(),
        time_in(row(timestamp_us, values, doubles(values.len()))) == timestamp_us,
        doubles_in(row(timestamp_us, values, doubles(values.len())), values.len()) == values,
{
    let schema = doubles(values.len());
    let sent = row(timestamp_us, values, schema);
    lemma_doubles_size(values.len());
    lemma_row_len(timestamp_us, values, schema);
    let back = doubles_in(sent, values.len());
    assert forall|i: int| 0 <= i < schema.len() implies decodes_to(
        schema[i],
        field_bytes(sent, schema, i),
        #[trigger] back[i],
    ) by {
        lemma_doubles_size(i as nat);
        assert(schema.take(i) =~= doubles(i as nat));
        let bytes = field_bytes(sent, schema, i);
        assert(bytes == sent.subrange(8 + 8 * i, 16 + 8 * i));
        lemma_le_value_bound(bytes);
        reveal_with_fuel(pow256, 9);
    }
    lemma_le_value_bound(sent.take(8));
    reveal_with_fuel(pow256, 9);
    law_row_survives(timestamp_us, values, schema, time_in(sent), back);
    assert forall|i: int| 0 <= i < values.len() implies back[i] == values[i] by {
        assert(carried(schema[i], values[i], back[i]));
    }
    assert(back =~= values);
}

/// Bytes of a planar picture: one of luma for every pixel, and two of chroma for every four.
pub open spec fn i420_len(width: u32, height: u32) -> int {
    (width * height) * 3 / 2
}

/// Checks a planar picture that is to be sent, and stamps it with `timestamp_us` or, without
/// one, with the current time.
pub fn check_i420(
    i420_data: &[u8],
    width: u32,
    height: u32,
    timestamp_us: Option<u64>,
    now_us: u64,
) -> (stamp: PortalResult<u64>)
    ensures
        match stamp {
            Ok(ts) => i420_data@.len() == i420_len(width, height) && ts == match timestamp_us {
                Some(ts) => ts,
                None => now_us,
            },
            Err(e) => i420_data@.len() != i420_len(width, height) && e@
                == (ErrorView::WrongValueCount {
                expected: i420_len(width, height) as nat,
                got: i420_data@.len(),
            }),
        },
{
    assert(0 <= width * height <= 0xffff_ffff * 0xffff_ffff) by (nonlinear_arith)
        requires
            0 <= width <= 0xffff_ffff,
            0 <= height <= 0xffff_ffff,
    ;
    let expected: u128 = width as u128 * height as u128 * 3 / 2;
    if i420_data.len() as u128 != expected {
        return Err(PortalError::WrongValueCount { expected, got: i420_data.len() });
    }
    Ok(
        match timestamp_us {
            Some(ts) => ts,
            None => now_us,
        },
    )
}

/// Where the planes of a picture that fits into memory end: luma, and the two chroma planes.
pub fn i420_planes(width: u32, height: u32) -> (ends: (usize, usize, usize))
    requires
        i420_len(width, height) <= usize::MAX,
    ensures
        ends.0 == width * height,
        ends.1 == ends.0 + (width / 2) * (height / 2),
        ends.2 == ends.0 + 2 * ((width / 2) * (height / 2)),
        ends.2 <= i420_len(width, height),
{
    let w: u32 = width / 2;
    let h: u32 = height / 2;
    assert(0 <= width * height) by (nonlinear_arith)
        requires
            width >= 0,
            height >= 0,
    ;
    assert(4 * (w * h) <= width * height) by (nonlinear_arith)
        requires
            0 <= 2 * w <= width,
            0 <= 2 * h <= height,
    ;
    assert(0 <= w * h) by (nonlinear_arith)
        requires
            w >= 0,
            h >= 0,
    ;
    let luma: usize = width as usize * height as usize;
    let chroma: usize = w as usize * h as usize;
    (luma, luma + chroma, luma + 2 * chroma)
}

/// The planes of a picture with even dimensions fill it exactly.
pub proof fn law_planes_fill_picture(width: u32, height: u32)
    requires
        width % 2 == 0,
        height % 2 == 0,
    ensures
        width * height + 2 * ((width / 2) * (height / 2)) == i420_len(width, height),
{
    let w = width as int / 2;
    let h = height as int / 2;
    assert(width * height == 4 * (w * h)) by (nonlinear_arith)
        requires
            width == 2 * w,
            height == 2 * h,
    ;
}

/// Something that happened in a session.
pub enum SessionEvent {
    TrackSubscribed { video: bool, track_name: String },
    /// A participant publishes rows on this track.
    DataTrackPublished { track_name: String },
    Reconnected,
    Other,
}

/// What is to be done about an event.
#[derive(Debug)]
pub enum SessionAction {
    Nothing,
    /// Read the frames of this track.
    Receive { track_name: String },
    /// Read the rows of the stream.
    Subscribe(DataStream),
}

/// One end of a session.
pub struct Portal {
    config: PortalConfig,
    connected: bool,
    video_publishers: FieldMap<()>,
    video_receivers: FieldMap<()>,
    state_publisher: Option<DataPublisher>,
    action_publisher: Option<DataPublisher>,
    sync_buffer: Option<SyncBuffer>,
}

/// What a portal knows.
#[verifier::ext_equal]
pub struct SessionView {
    pub config: SessionConfigView,
    pub connected: bool,
    pub video_publishers: Set<Seq<char>>,
    pub video_receivers: Set<Seq<char>>,
    pub state_publisher: Option<Seq<Seq<char>>>,
    pub action_publisher: Option<Seq<Seq<char>>>,
    pub sync_buffer: Option<PullView>,
}

impl View for Portal {
    type V = SessionView;

    closed spec fn view(&self) -> SessionView {
        SessionView {
            config: self.config@,
            connected: self.connected,
            video_publishers: self.video_publishers@.dom(),
            video_receivers: self.video_receivers@.dom(),
            state_publisher: match self.state_publisher {
                Some(p) => Some(p@),
                None => None,
            },
            action_publisher: match self.action_publisher {
                Some(p) => Some(p@),
                None => None,
            },
            sync_buffer: match self.sync_buffer {
                Some(sb) => Some(sb@),
                None => None,
            },
        }
    }
}

impl SessionView {
    pub open spec fn initial(config: SessionConfigView) -> SessionView {
        SessionView {
            config,
            connected: false,
            video_publishers: Set::empty(),
            video_receivers: Set::empty(),
            state_publisher: None,
            action_publisher: None,
            sync_buffer: None,
        }
    }

    /// All that was buffered is forgotten.
    pub open spec fn buffer_cleared(self) -> SessionView {
        SessionView {
            sync_buffer: match self.sync_buffer {
                Some(sb) => Some(sb.cleared()),
                None => None,
            },
            ..self
        }
    }

    /// After the session was left.
    pub open spec fn disconnected(self) -> SessionView {
        SessionView {
            connected: false,
            video_publishers: Set::empty(),
            video_receivers: Set::empty(),
            state_publisher: None,
            action_publisher: None,
            ..self.buffer_cleared()
        }
    }

    /// A video track was subscribed to that the operator declared and can use.
    pub open spec fn wants_track(self, video: bool, track_name: Seq<char>) -> bool {
        &&& self.config.role == Role::Operator
        &&& video
        &&& self.config.video_tracks.contains(track_name)
        &&& self.sync_buffer is Some
    }

    pub open spec fn after_event(self, event: SessionEvent) -> SessionView {
        match event {
            SessionEvent::TrackSubscribed { video, track_name } => if self.wants_track(
                video,
                track_name@,
            ) {
                SessionView {
                    video_receivers: self.video_receivers.insert(track_name@),
                    ..self
                }
            } else {
                self
            },
            SessionEvent::Reconnected => self.buffer_cleared(),
            _ => self,
        }
    }

    pub open spec fn action_for(self, event: SessionEvent, action: SessionAction) -> bool {
        match event {
            SessionEvent::TrackSubscribed { video, track_name } => if self.wants_track(
                video,
                track_name@,
            ) {
                action matches SessionAction::Receive { track_name: name } && name@ == track_name@
            } else {
                action is Nothing
            },
            SessionEvent::DataTrackPublished { track_name } => if self.config.role == Role::Robot
                && track_name@ == ACTION_TOPIC@ {
                action == SessionAction::Subscribe(DataStream::Action)
            } else if self.config.role == Role::Operator && track_name@ == STATE_TOPIC@ {
                action == SessionAction::Subscribe(DataStream::State)
            } else {
                action is Nothing
            },
            _ => action is Nothing,
        }
    }
}

impl Portal {
    pub closed spec fn wf(&self) -> bool {
        self.sync_buffer matches Some(sb) ==> sb.wf()
    }

    pub fn new(config: &PortalConfig) -> (portal: Portal)
        ensures
            portal.wf(),
            portal@ == SessionView::initial(config@),
    {
        let portal = Portal {
            config: config.snapshot(),
            connected: false,
            video_publishers: FieldMap::new(),
            video_receivers: FieldMap::new(),
            state_publisher: None,
            action_publisher: None,
            sync_buffer: None,
        };
        assert(portal@ =~= SessionView::initial(config@));
        portal
    }

    /// Whether the portal may connect now.
    pub fn begin_connect(&self) -> (r: PortalResult<()>)
        ensures
            match r {
                Ok(_) => !self@.connected,
                Err(e) => self@.connected && e@ == ErrorView::AlreadyConnected,
            },
    {
        if self.connected {
            return Err(PortalError::AlreadyConnected);
        }
        Ok(())
    }

    /// A track of a robot was published.
    pub fn video_published(&mut self, track_name: &str)
        requires
            old(self).wf(),
        ensures
            final(self).wf(),
            final(self)@ == (SessionView {
                video_publishers: old(self)@.video_publishers.insert(track_name@),
                ..old(self)@
            }),
    {
        self.video_publishers.insert(track_name.to_owned(), ());
        assert(self@.video_publishers =~= old(self)@.video_publishers.insert(track_name@));
    }

    /// The track for rows that has to be published, if any.
    pub fn data_track(&self) -> (topic: Option<&'static str>)
        ensures
            match topic {
                Some(t) => {
                    ||| self@.config.role == Role::Robot && self@.config.state_fields.len() > 0
                        && t@ == STATE_TOPIC@
                    ||| self@.config.role == Role::Operator && self@.config.action_fields.len() > 0
                        && t@ == ACTION_TOPIC@
                },
                None => {
                    ||| self@.config.role == Role::Robot && self@.config.state_fields.len() == 0
                    ||| self@.config.role == Role::Operator && self@.config.action_fields.len()
                        == 0
                },
            },
    {
        match self.config.role {
            Role::Robot => if self.config.state_fields.len() > 0 {
                Some(STATE_TOPIC)
            } else {
                None
            },
            Role::Operator => if self.config.action_fields.len() > 0 {
                Some(ACTION_TOPIC)
            } else {
                None
            },
        }
    }

    /// Sets a robot up for sending states, once the track for them is published.
    pub fn setup_robot(&mut self)
        requires
            old(self).wf(),
        ensures
            final(self).wf(),
            final(self)@ == (SessionView {
                state_publisher: if old(self)@.config.state_fields.len() > 0 {
                    Some(old(self)@.config.state_fields)
                } else {
                    old(self)@.state_publisher
                },
                ..old(self)@
            }),
    {
        if self.config.state_fields.len() > 0 {
            self.state_publisher = Some(
                DataPublisher::new(copy_texts(&self.config.state_fields)),
            );
        }
    }

    /// Sets an operator up for putting observations together.
    pub fn setup_operator_buffer(&mut self)
        requires
            old(self).wf(),
        ensures
            final(self).wf(),
            final(self)@.sync_buffer is Some,
            ({
                let sb = final(self)@.sync_buffer->0;
                &&& sb.names == unique(old(self)@.config.video_tracks)
                &&& sb.fields == old(self)@.config.state_fields
                &&& sb.config == old(self)@.config.sync_config
                &&& sb.buffers.len() == sb.names.len()
                &&& sb == sb.cleared()
                &&& final(self)@ == (SessionView { sync_buffer: Some(sb), ..old(self)@ })
            }),
    {
        let sync_buffer = SyncBuffer::new(
            self.config.video_tracks.as_slice(),
            copy_texts(&self.config.state_fields),
            self.config.sync_config,
        );
        self.sync_buffer = Some(sync_buffer);
    }

    /// Sets an operator up for sending actions, once the track for them is published.
    pub fn setup_operator(&mut self)
        requires
            old(self).wf(),
        ensures
            final(self).wf(),
            final(self)@ == (SessionView {
                action_publisher: if old(self)@.config.action_fields.len() > 0 {
                    Some(old(self)@.config.action_fields)
                } else {
                    old(self)@.action_publisher
                },
                ..old(self)@
            }),
    {
        if self.config.action_fields.len() > 0 {
            self.action_publisher = Some(
                DataPublisher::new(copy_texts(&self.config.action_fields)),
            );
        }
    }

    /// Everything is set up.
    pub fn finish_connect(&mut self)
        requires
            old(self).wf(),
        ensures
            final(self).wf(),
            final(self)@ == (SessionView { connected: true, ..old(self)@ }),
    {
        self.connected = true;
    }

    /// Checks a planar picture that is to be sent on a track, and stamps it.
    pub fn send_video_frame(
        &self,
        track_name: &str,
        i420_data: &[u8],
        width: u32,
        height: u32,
        timestamp_us: Option<u64>,
        now_us: u64,
    ) -> (stamp: PortalResult<u64>)
        ensures
            match stamp {
                Ok(ts) => {
                    &&& self@.video_publishers.contains(track_name@)
                    &&& i420_data@.len() == i420_len(width, height)
                    &&& ts == match timestamp_us {
                        Some(ts) => ts,
                        None => now_us,
                    }
                },
                Err(e) => if !self@.video_publishers.contains(track_name@) {
                    e@ == ErrorView::UnknownVideoTrack(track_name@)
                } else {
                    &&& i420_data@.len() != i420_len(width, height)
                    &&& e@ == (ErrorView::WrongValueCount {
                        expected: i420_len(width, height) as nat,
                        got: i420_data@.len(),
                    })
                },
            },
    {
        if self.video_publishers.contains_key(track_name) {
            check_i420(i420_data, width, height, timestamp_us, now_us)
        } else {
            Err(PortalError::UnknownVideoTrack { name: track_name.to_owned() })
        }
    }

    /// The packet for a state.
    pub fn send_state(
        &self,
        values: &FieldMap<Double>,
        timestamp_us: Option<u64>,
        now_us: u64,
    ) -> (payload: PortalResult<Vec<u8>>)
        ensures
            row_or_refusal(
                self@.state_publisher,
                Role::Operator,
                values@,
                timestamp_us,
                now_us,
                payload,
            ),
    {
        match &self.state_publisher {
            Some(p) => p.send_map(values, timestamp_us, now_us),
            None => Err(PortalError::WrongRole(Role::Operator)),
        }
    }

    /// The packet for an action.
    pub fn send_action(
        &self,
        values: &FieldMap<Double>,
        timestamp_us: Option<u64>,
        now_us: u64,
    ) -> (payload: PortalResult<Vec<u8>>)
        ensures
            row_or_refusal(
                self@.action_publisher,
                Role::Robot,
                values@,
                timestamp_us,
                now_us,
                payload,
            ),
    {
        match &self.action_publisher {
            Some(p) => p.send_map(values, timestamp_us, now_us),
            None => Err(PortalError::WrongRole(Role::Robot)),
        }
    }

    /// Whether frames of this track can be listened to.
    pub fn on_video(&self, track_name: &str) -> (known: bool)
        ensures
            known == self@.config.video_tracks.contains(track_name@),
    {
        has_text(&self.config.video_tracks, track_name)
    }

    /// Whether a stream is read on, now that it is subscribed to: a state needs a place to go.
    pub fn subscribed(&self, stream: DataStream) -> (read: bool)
        ensures
            read == (stream == DataStream::Action || self@.sync_buffer is Some),
    {
        match stream {
            DataStream::Action => true,
            DataStream::State => self.sync_buffer.is_some(),
        }
    }

    /// The action in a packet.
    pub fn receive_action(&self, payload: &[u8]) -> (action: Option<FieldMap<Double>>)
        ensures
            match action {
                Some(map) => {
                    &&& payload@.len() == 8 + 8 * self@.config.action_fields.len()
                    &&& map@ == collect(
                        paired(
                            self@.config.action_fields,
                            doubles_in(payload@, self@.config.action_fields.len()),
                        ),
                    )
                },
                None => payload@.len() != 8 + 8 * self@.config.action_fields.len(),
            },
    {
        match receive_row(payload, self.config.action_fields.len()) {
            Some((_, values)) => Some(
                to_field_map(self.config.action_fields.as_slice(), values.as_slice()),
            ),
            None => None,
        }
    }

    /// Takes in the state in a packet: what to tell those who listen to states, and what came
    /// of it.
    pub fn receive_state(&mut self, payload: &[u8]) -> (told: Option<
        (FieldMap<Double>, PullOutput),
    >)
        requires
            old(self).wf(),
        ensures
            final(self).wf(),
            match told {
                Some((map, out)) => {
                    let fields = old(self)@.config.state_fields;
                    let values = doubles_in(payload@, fields.len());
                    let state = StateView { timestamp_us: time_in(payload@), values };
                    &&& payload@.len() == 8 + 8 * fields.len()
                    &&& map@ == collect(paired(fields, values))
                    &&& old(self)@.sync_buffer matches Some(sb)
                    &&& out@ == sb.state_pushed(state).1
                    &&& final(self)@ == (SessionView {
                        sync_buffer: Some(sb.state_pushed(state).0),
                        ..old(self)@
                    })
                },
                None => {
                    &&& final(self)@ == old(self)@
                    &&& payload@.len() != 8 + 8 * old(self)@.config.state_fields.len() || old(
                        self,
                    )@.sync_buffer is None
                },
            },
    {
        let row = receive_row(payload, self.config.state_fields.len());
        if self.sync_buffer.is_none() {
            return None;
        }
        match row {
            Some((timestamp_us, values)) => {
                let map: FieldMap<Double> = to_field_map(
                    self.config.state_fields.as_slice(),
                    values.as_slice(),
                );
                let mut held: Option<SyncBuffer> = None;
                std::mem::swap(&mut held, &mut self.sync_buffer);
                let mut sb: SyncBuffer = held.unwrap();
                let out: PullOutput = sb.push_state(timestamp_us, values);
                self.sync_buffer = Some(sb);
                Some((map, out))
            },
            None => None,
        }
    }

    /// Takes in a frame, and says what came of it.
    pub fn receive_frame(&mut self, track_name: &str, frame: Arc<VideoFrameData>) -> (told: Option<
        PullOutput,
    >)
        requires
            old(self).wf(),
        ensures
            final(self).wf(),
            match old(self)@.sync_buffer {
                Some(sb) => {
                    &&& told matches Some(out)
                    &&& out@ == sb.frame_added(track_name@, frame).run().1
                    &&& final(self)@ == (SessionView {
                        sync_buffer: Some(sb.frame_added(track_name@, frame).run().0),
                        ..old(self)@
                    })
                },
                None => told is None && final(self)@ == old(self)@,
            },
    {
        let mut held: Option<SyncBuffer> = None;
        std::mem::swap(&mut held, &mut self.sync_buffer);
        match held {
            Some(sb) => {
                let mut sb: SyncBuffer = sb;
                let out: PullOutput = sb.push_frame(track_name, frame);
                self.sync_buffer = Some(sb);
                Some(out)
            },
            None => None,
        }
    }

    /// Starts leaving the session. Returned is whether there is one to leave.
    pub fn begin_disconnect(&mut self) -> (close: bool)
        requires
            old(self).wf(),
        ensures
            final(self).wf(),
            close == old(self)@.connected,
            final(self)@ == (SessionView { connected: false, ..old(self)@ }),
    {
        let close: bool = self.connected;
        self.connected = false;
        close
    }

    /// Cleans up after the session was left. Where leaving it failed, nothing is cleaned up.
    pub fn finish_disconnect(&mut self, close: PortalResult<()>) -> (r: PortalResult<()>)
        requires
            old(self).wf(),
        ensures
            final(self).wf(),
            r == close,
            final(self)@ == if close is Ok {
                old(self)@.disconnected()
            } else {
                old(self)@
            },
    {
        if close.is_ok() {
            self.connected = false;
            self.clear_buffer();
            self.video_publishers = FieldMap::new();
            self.video_receivers = FieldMap::new();
            self.state_publisher = None;
            self.action_publisher = None;
            assert(self@ =~= old(self)@.disconnected());
        }
        close
    }

    fn clear_buffer(&mut self)
        requires
            old(self).wf(),
        ensures
            final(self).wf(),
            final(self)@ == old(self)@.buffer_cleared(),
    {
        let mut held: Option<SyncBuffer> = None;
        std::mem::swap(&mut held, &mut self.sync_buffer);
        if let Some(sb) = held {
            let mut sb: SyncBuffer = sb;
            sb.clear();
            self.sync_buffer = Some(sb);
        }
        assert(self@ =~= old(self)@.buffer_cleared());
    }

    /// Takes note of an event and says what is to be done about it.
    pub fn handle_room_event(&mut self, event: SessionEvent) -> (action: SessionAction)
        requires
            old(self).wf(),
        ensures
            final(self).wf(),
            final(self)@ == old(self)@.after_event(event),
            old(self)@.action_for(event, action),
    {
        match event {
            SessionEvent::TrackSubscribed { video, track_name } => {
                if self.config.role != Role::Operator || !video || !has_text(
                    &self.config.video_tracks,
                    track_name.as_str(),
                ) || self.sync_buffer.is_none() {
                    return SessionAction::Nothing;
                }
                self.video_receivers.insert(track_name.clone(), ());
                assert(self@.video_receivers =~= old(self)@.video_receivers.insert(track_name@));
                SessionAction::Receive { track_name }
            },
            SessionEvent::DataTrackPublished { track_name } => {
                if self.config.role == Role::Robot && same_text(
                    track_name.as_str(),
                    ACTION_TOPIC,
                ) {
                    SessionAction::Subscribe(DataStream::Action)
                } else if self.config.role == Role::Operator && same_text(
                    track_name.as_str(),
                    STATE_TOPIC,
                ) {
                    SessionAction::Subscribe(DataStream::State)
                } else {
                    SessionAction::Nothing
                }
            },
            SessionEvent::Reconnected => {
                self.clear_buffer();
                SessionAction::Nothing
            },
            SessionEvent::Other => SessionAction::Nothing,
        }
    }
}

/// The packet of a publisher, or the refusal where there is none.
pub open spec fn row_or_refusal(
    publisher: Option<Seq<Seq<char>>>,
    refusal: Role,
    values: Map<Seq<char>, Double>,
    timestamp_us: Option<u64>,
    now_us: u64,
    payload: PortalResult<Vec<u8>>,
) -> bool {
    match publisher {
        None => payload matches Err(e) && e@ == ErrorView::WrongRole(refusal),
        Some(fields) => payload matches Ok(bytes) && bytes@ == row(
            match timestamp_us {
                Some(ts) => ts,
                None => now_us,
            },
            zero_filled(fields, values),
            doubles(fields.len()),
        ),
    }
}

/// After leaving a session a portal can join one again as if for the first time, but for a
/// synchronisation buffer that stays, empty.
pub proof fn law_disconnect_is_fresh(portal: SessionView)
    ensures
        portal.disconnected() == (SessionView {
            sync_buffer: portal.disconnected().sync_buffer,
            ..SessionView::initial(portal.config)
        }),
        portal.disconnected().sync_buffer matches Some(sb) ==> sb == sb.cleared(),
{
    if let Some(sb) = portal.sync_buffer {
        assert(sb.cleared().cleared() =~= sb.cleared());
    }
}

/// A row has for every field the value it was given under the field's name, and zero where it was
/// given none.
pub proof fn law_row_is_in_order(fields: Seq<Seq<char>>, map: Map<Seq<char>, Double>, i: int)
    requires
        0 <= i < fields.len(),
    ensures
        zero_filled(fields, map).len() == fields.len(),
        map.contains_key(fields[i]) ==> zero_filled(fields, map)[i] == map[fields[i]],
        !map.contains_key(fields[i]) ==> zero_filled(fields, map)[i].bits == 0,
{
}

/// Without a publisher a row is refused with the role; with one it goes out, stamped as asked, and
/// whoever reads it finds under the name of a field, declared once, the very double that was given
/// under that name, or zero.
pub proof fn law_field_crosses_by_name(
    publisher: Option<Seq<Seq<char>>>,
    refusal: Role,
    values: Map<Seq<char>, Double>,
    timestamp_us: Option<u64>,
    now_us: u64,
    payload: PortalResult<Vec<u8>>,
)
    requires
        row_or_refusal(publisher, refusal, values, timestamp_us, now_us, payload),
    ensures
        publisher is None ==> (payload matches Err(e) && e@ == ErrorView::WrongRole(refusal)),
        publisher matches Some(fields) ==> {
            &&& payload matches Ok(bytes)
            &&& bytes@.len() == 8 + 8 * fields.len()
            &&& time_in(bytes@) == match timestamp_us {
                Some(ts) => ts,
                None => now_us,
            }
            &&& forall|i: int|
                0 <= i < fields.len() && (forall|j: int|
                    i < j < fields.len() ==> #[trigger] fields[j] != fields[i]) ==> {
                    let read = collect(paired(fields, doubles_in(bytes@, fields.len())));
                    let name = #[trigger] fields[i];
                    &&& read.contains_key(name)
                    &&& values.contains_key(name) ==> read[name] == values[name]
                    &&& !values.contains_key(name) ==> read[name].bits == 0
                }
        },
{
    if let Some(fields) = publisher {
        let bytes = payload->Ok_0;
        let sent = zero_filled(fields, values);
        let stamp = match timestamp_us {
            Some(ts) => ts,
            None => now_us,
        };
        law_doubles_arrive_unchanged(stamp, sent);
        let values_read = doubles_in(bytes@, fields.len());
        assert(values_read == sent);
        assert forall|i: int|
            0 <= i < fields.len() && (forall|j: int|
                i < j < fields.len() ==> #[trigger] fields[j] != fields[i]) implies {
            let read = collect(paired(fields, values_read));
            let name = #[trigger] fields[i];
            &&& read.contains_key(name)
            &&& values.contains_key(name) ==> read[name] == values[name]
            &&& !values.contains_key(name) ==> read[name].bits == 0
        } by {
            crate::types::law_names_find_their_values(fields, values_read, fields[i]);
            assert(collect(paired(fields, values_read))[fields[i]] == values_read[i]);
        }
    }
}

/// A packet of doubles has its time in the first eight bytes and every double in the eight bytes
/// behind those of the one before, lowest byte first.
pub proof fn law_doubles_are_in_order(payload: Seq<u8>, n: nat, i: int)
    requires
        payload.len() == 8 + 8 * n,
        0 <= i < n,
    ensures
        doubles_in(payload, n).len() == n,
        time_in(payload) == le_value(payload.subrange(0, 8)),
        doubles_in(payload, n)[i].bits == le_value(payload.subrange(8 + 8 * i, 16 + 8 * i)),
{
    let at = payload.subrange(8 + 8 * i, 16 + 8 * i);
    assert(payload.take(8) =~= payload.subrange(0, 8));
    crate::wire::lemma_pow256();
    lemma_le_value_bound(at);
    lemma_le_value_bound(payload.take(8));
}

/// A planar picture has three bytes for every two pixels, without the fraction.
pub proof fn law_planar_size(width: u32, height: u32)
    ensures
        2 * i420_len(width, height) <= 3 * (width * height) < 2 * i420_len(width, height) + 2,
{
}

/// An operator that puts observations together reads the frames of every declared video track that
/// it is subscribed to, under the name of that track, and of no other.
pub proof fn law_declared_track_is_received(
    portal: SessionView,
    video: bool,
    track_name: String,
    action: SessionAction,
)
    ensures
        ({
            let event = SessionEvent::TrackSubscribed { video, track_name };
            let after = portal.after_event(event);
            let wanted = video && portal.config.role == Role::Operator
                && portal.config.video_tracks.contains(track_name@) && portal.sync_buffer is Some;
            &&& wanted ==> (portal.action_for(event, action) <==> (
            action matches SessionAction::Receive { track_name: name } && name@ == track_name@))
            &&& !wanted ==> (portal.action_for(event, action) <==> action is Nothing)
            &&& forall|k: Seq<char>| #[trigger]
                after.video_receivers.contains(k) <==> portal.video_receivers.contains(k) || wanted
                    && k == track_name@
            &&& after == (SessionView { video_receivers: after.video_receivers, ..portal })
        }),
{
}

/// Robots subscribe to actions, operators to states, and nobody to anything else; that a track was
/// published changes nothing.
pub proof fn law_rows_are_subscribed_to(
    portal: SessionView,
    track_name: String,
    action: SessionAction,
)
    ensures
        ({
            let event = SessionEvent::DataTrackPublished { track_name };
            let actions = portal.config.role == Role::Robot && track_name@ == ACTION_TOPIC@;
            let states = portal.config.role == Role::Operator && track_name@ == STATE_TOPIC@;
            &&& portal.action_for(event, action) <==> action == if actions {
                SessionAction::Subscribe(DataStream::Action)
            } else if states {
                SessionAction::Subscribe(DataStream::State)
            } else {
                SessionAction::Nothing
            }
            &&& portal.after_event(event) == portal
        }),
{
}

/// After a reconnect the buffer is empty and set up as before, everything else stays, and nothing
/// is to be done. Events of no concern change nothing.
pub proof fn law_reconnect_empties_buffer(portal: SessionView, action: SessionAction)
    ensures
        ({
            let after = portal.after_event(SessionEvent::Reconnected);
            &&& portal.action_for(SessionEvent::Reconnected, action) <==> action is Nothing
            &&& after.sync_buffer is Some <==> portal.sync_buffer is Some
            &&& after.sync_buffer matches Some(sb) ==> {
                &&& sb.states.len() == 0
                &&& sb.queue.len() == 0
                &&& sb.names == portal.sync_buffer->0.names
                &&& sb.fields == portal.sync_buffer->0.fields
                &&& sb.config == portal.sync_buffer->0.config
                &&& sb.buffers.len() == portal.sync_buffer->0.buffers.len()
                &&& forall|i: int|
                    0 <= i < sb.buffers.len() ==> (#[trigger] sb.buffers[i]).len() == 0
            }
            &&& after == (SessionView { sync_buffer: after.sync_buffer, ..portal })
        }),
        portal.action_for(SessionEvent::Other, action) <==> action is Nothing,
        portal.after_event(SessionEvent::Other) == portal,
{
}

/// A portal that left its session, like one that never joined, is not connected and neither sends
/// nor receives; what it buffered is gone.
pub proof fn law_left_portal_is_idle(portal: SessionView, config: SessionConfigView)
    ensures
        ({
            let after = portal.disconnected();
            &&& after.config == portal.config
            &&& !after.connected
            &&& after.state_publisher is None
            &&& after.action_publisher is None
            &&& forall|k: Seq<char>|
                !#[trigger] after.video_publishers.contains(k)
                    && !after.video_receivers.contains(k)
            &&& after.sync_buffer matches Some(sb) ==> sb.states.len() == 0 && sb.queue.len() == 0
                && forall|i: int|
                0 <= i < sb.buffers.len() ==> (#[trigger] sb.buffers[i]).len() == 0
        }),
        ({
            let fresh = SessionView::initial(config);
            &&& fresh.config == config
            &&& !fresh.connected
            &&& fresh.state_publisher is None
            &&& fresh.action_publisher is None
            &&& fresh.sync_buffer is None
            &&& forall|k: Seq<char>|
                !#[trigger] fresh.video_publishers.contains(k)
                    && !fresh.video_receivers.contains(k)
        }),
{
}

/// Unless set otherwise, thirty frames a track, thirty states and ten observations are kept, a state
/// reaches thirty milliseconds for its frame, and stale frames are not reused.
pub proof fn law_default_settings()
    ensures
        default_sync().video_buffer_size == 30,
        default_sync().state_buffer_size == 30,
        default_sync().observation_buffer_size == 10,
        default_sync().search_range_us == 30_000,
        !default_sync().reuse_stale_frames,
{
}

} // verus!
