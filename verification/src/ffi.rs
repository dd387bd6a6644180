//! The records that cross the language boundary, and how they come from the core ones.

use vstd::prelude::*;

use crate::double::Double;
use crate::error::error_text;
use crate::field_map::{collect, FieldMap};
use crate::text::same_text;
use crate::typed::{as_declared, TypedValue};
use crate::types::VideoFrameData;

verus! {

/// Which end of a session a portal is.
#[derive(Debug, Clone, Copy, PartialEq, Eq, Structural)]
pub enum Role {
    Robot,
    Operator,
}

impl From<Role> for crate::types::Role {
    fn from(r: Role) -> Self {
        match r {
            Role::Robot => crate::types::Role::Robot,
            Role::Operator => crate::types::Role::Operator,
        }
    }
}

impl vstd::std_specs::convert::FromSpecImpl<Role> for crate::types::Role {
    open spec fn obeys_from_spec() -> bool {
        true
    }

    open spec fn from_spec(r: Role) -> Self {
        match r {
            Role::Robot => crate::types::Role::Robot,
            Role::Operator => crate::types::Role::Operator,
        }
    }
}

impl From<crate::types::Role> for Role {
    fn from(r: crate::types::Role) -> Self {
        match r {
            crate::types::Role::Robot => Role::Robot,
            crate::types::Role::Operator => Role::Operator,
        }
    }
}

impl vstd::std_specs::convert::FromSpecImpl<crate::types::Role> for Role {
    open spec fn obeys_from_spec() -> bool {
        true
    }

    open spec fn from_spec(r: crate::types::Role) -> Self {
        match r {
            crate::types::Role::Robot => Role::Robot,
            crate::types::Role::Operator => Role::Operator,
        }
    }
}

/// Declared type of a state or action field.
#[derive(Debug, Clone, Copy, PartialEq, Eq, Structural)]
pub enum DType {
    F64,
    F32,
    I32,
    I16,
    I8,
    U32,
    U16,
    U8,
    Bool,
}

impl From<DType> for crate::dtype::DType {
    fn from(d: DType) -> Self {
        match d {
            DType::F64 => crate::dtype::DType::F64,
            DType::F32 => crate::dtype::DType::F32,
            DType::I32 => crate::dtype::DType::I32,
            DType::I16 => crate::dtype::DType::I16,
            DType::I8 => crate::dtype::DType::I8,
            DType::U32 => crate::dtype::DType::U32,
            DType::U16 => crate::dtype::DType::U16,
            DType::U8 => crate::dtype::DType::U8,
            DType::Bool => crate::dtype::DType::Bool,
        }
    }
}

impl vstd::std_specs::convert::FromSpecImpl<DType> for crate::dtype::DType {
    open spec fn obeys_from_spec() -> bool {
        true
    }

    open spec fn from_spec(d: DType) -> Self {
        match d {
            DType::F64 => crate::dtype::DType::F64,
            DType::F32 => crate::dtype::DType::F32,
            DType::I32 => crate::dtype::DType::I32,
            DType::I16 => crate::dtype::DType::I16,
            DType::I8 => crate::dtype::DType::I8,
            DType::U32 => crate::dtype::DType::U32,
            DType::U16 => crate::dtype::DType::U16,
            DType::U8 => crate::dtype::DType::U8,
            DType::Bool => crate::dtype::DType::Bool,
        }
    }
}

/// A core type as it crosses the boundary.
pub open spec fn dtype_across(d: crate::dtype::DType) -> DType {
    match d {
        crate::dtype::DType::F64 => DType::F64,
        crate::dtype::DType::F32 => DType::F32,
        crate::dtype::DType::I32 => DType::I32,
        crate::dtype::DType::I16 => DType::I16,
        crate::dtype::DType::I8 => DType::I8,
        crate::dtype::DType::U32 => DType::U32,
        crate::dtype::DType::U16 => DType::U16,
        crate::dtype::DType::U8 => DType::U8,
        crate::dtype::DType::Bool => DType::Bool,
    }
}

impl From<crate::dtype::DType> for DType {
    fn from(d: crate::dtype::DType) -> Self {
        match d {
            crate::dtype::DType::F64 => DType::F64,
            crate::dtype::DType::F32 => DType::F32,
            crate::dtype::DType::I32 => DType::I32,
            crate::dtype::DType::I16 => DType::I16,
            crate::dtype::DType::I8 => DType::I8,
            crate::dtype::DType::U32 => DType::U32,
            crate::dtype::DType::U16 => DType::U16,
            crate::dtype::DType::U8 => DType::U8,
            crate::dtype::DType::Bool => DType::Bool,
        }
    }
}

impl vstd::std_specs::convert::FromSpecImpl<crate::dtype::DType> for DType {
    open spec fn obeys_from_spec() -> bool {
        true
    }

    open spec fn from_spec(d: crate::dtype::DType) -> Self {
        dtype_across(d)
    }
}

/// Roles and types cross the boundary in both directions without loss.
pub proof fn law_enums_cross(role: Role, dtype: DType)
    ensures
        <Role as vstd::std_specs::convert::FromSpec<crate::types::Role>>::from_spec(
            <crate::types::Role as vstd::std_specs::convert::FromSpec<Role>>::from_spec(role),
        ) == role,
        <DType as vstd::std_specs::convert::FromSpec<crate::dtype::DType>>::from_spec(
            <crate::dtype::DType as vstd::std_specs::convert::FromSpec<DType>>::from_spec(dtype),
        ) == dtype,
{
}

/// A declared field.
#[derive(Debug)]
pub struct FieldSpec {
    pub name: String,
    pub dtype: DType,
}

/// A video frame.
#[derive(Debug)]
pub struct VideoFrame {
    pub width: u32,
    pub height: u32,
    pub data: Vec<u8>,
    pub timestamp_us: u64,
}

pub struct Observation {
    pub timestamp_us: u64,
    pub state: FieldMap<Double>,
    pub frames: FieldMap<VideoFrame>,
}

pub struct Action {
    pub values: FieldMap<Double>,
    pub timestamp_us: u64,
}

pub struct State {
    pub values: FieldMap<Double>,
    pub timestamp_us: u64,
}

pub struct SyncMetrics {
    pub observations_emitted: u64,
    pub stale_observations_emitted: u64,
    pub states_dropped: u64,
    pub match_delta_us_p50: Option<u64>,
    pub match_delta_us_p95: Option<u64>,
    pub last_blocker_track: Option<String>,
}

pub struct TransportMetrics {
    pub frames_sent: FieldMap<u64>,
    pub frames_received: FieldMap<u64>,
    pub states_sent: u64,
    pub states_received: u64,
    pub actions_sent: u64,
    pub actions_received: u64,
    pub frame_jitter_us: FieldMap<u64>,
    pub state_jitter_us: u64,
    pub action_jitter_us: u64,
}

pub struct BufferMetrics {
    pub video_fill: FieldMap<u64>,
    pub state_fill: u64,
    pub evictions: FieldMap<u64>,
}

pub struct RttMetrics {
    pub rtt_us_last: Option<u64>,
    pub rtt_us_mean: Option<u64>,
    pub rtt_us_p95: Option<u64>,
    pub pings_sent: u64,
    pub pongs_received: u64,
}

pub struct PortalMetrics {
    pub sync: SyncMetrics,
    pub transport: TransportMetrics,
    pub buffers: BufferMetrics,
    pub rtt: RttMetrics,
}

/// An incoming call as its handler sees it.
#[derive(Debug)]
pub struct RpcInvocationData {
    pub request_id: String,
    pub caller_identity: String,
    pub payload: String,
    pub response_timeout_ms: u64,
}

/// A failed call.
#[derive(Debug)]
pub enum RpcError {
    Error { code: u32, message: String, data: Option<String> },
}

impl From<crate::error::RpcError> for RpcError {
    fn from(e: crate::error::RpcError) -> Self {
        RpcError::Error { code: e.code, message: e.message, data: e.data }
    }
}

impl vstd::std_specs::convert::FromSpecImpl<crate::error::RpcError> for RpcError {
    open spec fn obeys_from_spec() -> bool {
        true
    }

    open spec fn from_spec(e: crate::error::RpcError) -> Self {
        RpcError::Error { code: e.code, message: e.message, data: e.data }
    }
}

impl From<RpcError> for crate::error::RpcError {
    fn from(e: RpcError) -> Self {
        match e {
            RpcError::Error { code, message, data } => crate::error::RpcError {
                code,
                message,
                data,
            },
        }
    }
}

impl vstd::std_specs::convert::FromSpecImpl<RpcError> for crate::error::RpcError {
    open spec fn obeys_from_spec() -> bool {
        true
    }

    open spec fn from_spec(e: RpcError) -> Self {
        match e {
            RpcError::Error { code, message, data } => crate::error::RpcError {
                code,
                message,
                data,
            },
        }
    }
}

/// A number as far as 64 bits hold it.
pub open spec fn clipped(n: u128) -> u64 {
    if n > u64::MAX {
        u64::MAX
    } else {
        n as u64
    }
}

fn clip(n: u128) -> (c: u64)
    ensures
        c == clipped(n),
{
    if n > u64::MAX as u128 {
        u64::MAX
    } else {
        n as u64
    }
}

/// What can go wrong, as it crosses the boundary.
#[derive(Debug)]
#[allow(inconsistent_fields)]
pub enum PortalError {
    Room(String),
    AlreadyConnected,
    NotConnected,
    NoPeer,
    AmbiguousPeer,
    UnknownVideoTrack(String),
    UnknownChunk(String),
    WrongValueCount { expected: u64, got: u64 },
    WrongFrameSize { expected: u64, got: u64 },
    InvalidFrameDimensions { width: u32, height: u32 },
    Deserialization(String),
    WrongRole(Role),
    DtypeMismatch { field: String, expected: DType, got: String },
    Rpc { code: u32, message: String, data: Option<String> },
    DataTrack(String),
    Internal(String),
}

impl From<crate::error::PortalError> for PortalError {
    fn from(e: crate::error::PortalError) -> Self {
        match e {
            crate::error::PortalError::Room(s) => PortalError::Room(s),
            crate::error::PortalError::AlreadyConnected => PortalError::AlreadyConnected,
            crate::error::PortalError::NotConnected => PortalError::NotConnected,
            crate::error::PortalError::NoPeer => PortalError::NoPeer,
            crate::error::PortalError::AmbiguousPeer => PortalError::AmbiguousPeer,
            crate::error::PortalError::UnknownVideoTrack { name } =>
            PortalError::UnknownVideoTrack(name),
            crate::error::PortalError::UnknownChunk { name } => PortalError::UnknownChunk(name),
            crate::error::PortalError::WrongValueCount { expected, got } =>
            PortalError::WrongValueCount { expected: clip(expected), got: got as u64 },
            crate::error::PortalError::WrongFrameSize { expected, got } =>
            PortalError::WrongFrameSize { expected: clip(expected), got: got as u64 },
            crate::error::PortalError::InvalidFrameDimensions { width, height } =>
            PortalError::InvalidFrameDimensions { width, height },
            crate::error::PortalError::Deserialization(s) => PortalError::Deserialization(s),
            crate::error::PortalError::WrongRole(r) => PortalError::WrongRole(Role::from(r)),
            crate::error::PortalError::DtypeMismatch { field, expected, got } =>
            PortalError::DtypeMismatch { field, expected: DType::from(expected), got },
            crate::error::PortalError::Rpc(e) => PortalError::Rpc {
                code: e.code,
                message: e.message,
                data: e.data,
            },
            crate::error::PortalError::DataTrack(s) => PortalError::DataTrack(s),
            crate::error::PortalError::Internal(s) => PortalError::Internal(s),
        }
    }
}

impl vstd::std_specs::convert::FromSpecImpl<crate::error::PortalError> for PortalError {
    open spec fn obeys_from_spec() -> bool {
        true
    }

    open spec fn from_spec(e: crate::error::PortalError) -> Self {
        match e {
            crate::error::PortalError::Room(s) => PortalError::Room(s),
            crate::error::PortalError::AlreadyConnected => PortalError::AlreadyConnected,
            crate::error::PortalError::NotConnected => PortalError::NotConnected,
            crate::error::PortalError::NoPeer => PortalError::NoPeer,
            crate::error::PortalError::AmbiguousPeer => PortalError::AmbiguousPeer,
            crate::error::PortalError::UnknownVideoTrack { name } =>
            PortalError::UnknownVideoTrack(name),
            crate::error::PortalError::UnknownChunk { name } => PortalError::UnknownChunk(name),
            crate::error::PortalError::WrongValueCount { expected, got } =>
            PortalError::WrongValueCount { expected: clipped(expected), got: got as u64 },
            crate::error::PortalError::WrongFrameSize { expected, got } =>
            PortalError::WrongFrameSize { expected: clipped(expected), got: got as u64 },
            crate::error::PortalError::InvalidFrameDimensions { width, height } =>
            PortalError::InvalidFrameDimensions { width, height },
            crate::error::PortalError::Deserialization(s) => PortalError::Deserialization(s),
            crate::error::PortalError::WrongRole(r) => PortalError::WrongRole(
                match r {
                    crate::types::Role::Robot => Role::Robot,
                    crate::types::Role::Operator => Role::Operator,
                },
            ),
            crate::error::PortalError::DtypeMismatch { field, expected, got } =>
            PortalError::DtypeMismatch { field, expected: dtype_across(expected), got },
            crate::error::PortalError::Rpc(e) => PortalError::Rpc {
                code: e.code,
                message: e.message,
                data: e.data,
            },
            crate::error::PortalError::DataTrack(s) => PortalError::DataTrack(s),
            crate::error::PortalError::Internal(s) => PortalError::Internal(s),
        }
    }
}

/// An error as a name and a message.
#[derive(Debug)]
pub struct ErrorRecord {
    pub variant: String,
    pub message: String,
}

/// The name of the kind of an error.
pub open spec fn variant_name(e: crate::error::ErrorView) -> Seq<char> {
    match e {
        crate::error::ErrorView::Room(_) => "Room"@,
        crate::error::ErrorView::AlreadyConnected => "AlreadyConnected"@,
        crate::error::ErrorView::NotConnected => "NotConnected"@,
        crate::error::ErrorView::NoPeer => "NoPeer"@,
        crate::error::ErrorView::AmbiguousPeer => "AmbiguousPeer"@,
        crate::error::ErrorView::UnknownVideoTrack(_) => "UnknownVideoTrack"@,
        crate::error::ErrorView::UnknownChunk(_) => "UnknownChunk"@,
        crate::error::ErrorView::WrongValueCount { expected, got } => "WrongValueCount"@,
        crate::error::ErrorView::WrongFrameSize { expected, got } => "WrongFrameSize"@,
        crate::error::ErrorView::InvalidFrameDimensions { width, height } =>
        "InvalidFrameDimensions"@,
        crate::error::ErrorView::Deserialization(_) => "Deserialization"@,
        crate::error::ErrorView::WrongRole(_) => "WrongRole"@,
        crate::error::ErrorView::DtypeMismatch { field, expected, got } => "DtypeMismatch"@,
        crate::error::ErrorView::Rpc { code, message, data } => "Rpc"@,
        crate::error::ErrorView::DataTrack(_) => "DataTrack"@,
        crate::error::ErrorView::Internal(_) => "Internal"@,
    }
}

/// The name and the message of an error.
pub fn error_record(e: &crate::error::PortalError) -> (record: ErrorRecord)
    ensures
        record.variant@ == variant_name(e@),
        record.message@ == error_text(e@),
{
    let variant = match e {
        crate::error::PortalError::Room(_) => "Room",
        crate::error::PortalError::AlreadyConnected => "AlreadyConnected",
        crate::error::PortalError::NotConnected => "NotConnected",
        crate::error::PortalError::NoPeer => "NoPeer",
        crate::error::PortalError::AmbiguousPeer => "AmbiguousPeer",
        crate::error::PortalError::UnknownVideoTrack { .. } => "UnknownVideoTrack",
        crate::error::PortalError::UnknownChunk { .. } => "UnknownChunk",
        crate::error::PortalError::WrongValueCount { .. } => "WrongValueCount",
        crate::error::PortalError::WrongFrameSize { .. } => "WrongFrameSize",
        crate::error::PortalError::InvalidFrameDimensions { .. } => "InvalidFrameDimensions",
        crate::error::PortalError::Deserialization(_) => "Deserialization",
        crate::error::PortalError::WrongRole(_) => "WrongRole",
        crate::error::PortalError::DtypeMismatch { .. } => "DtypeMismatch",
        crate::error::PortalError::Rpc(_) => "Rpc",
        crate::error::PortalError::DataTrack(_) => "DataTrack",
        crate::error::PortalError::Internal(_) => "Internal",
    };
    ErrorRecord { variant: variant.to_owned(), message: e.message() }
}

/// Two frames are the same picture.
pub open spec fn same_frame(a: VideoFrame, b: VideoFrameData) -> bool {
    &&& a.width == b.width
    &&& a.height == b.height
    &&& a.data@ == b.data@
    &&& a.timestamp_us == b.timestamp_us
}

/// A frame of its own for the other side.
pub fn frame_from_core(f: &VideoFrameData) -> (frame: VideoFrame)
    ensures
        same_frame(frame, *f),
{
    let mut data: Vec<u8> = Vec::new();
    data.extend_from_slice(f.data.as_slice());
    assert(data@ =~= f.data@);
    VideoFrame { width: f.width, height: f.height, data, timestamp_us: f.timestamp_us }
}

/// A map of its own for the other side.
pub fn copy_fields(map: &FieldMap<Double>) -> (copy: FieldMap<Double>)
    ensures
        copy@ == map@,
{
    let n: usize = map.len();
    let ghost pairs = map.pairs();
    let mut copy: FieldMap<Double> = FieldMap::new();
    let mut i: usize = 0;
    assert(pairs.take(0) =~= Seq::empty());
    while i < n
        invariant
            n == map.pairs().len(),
            pairs == map.pairs(),
            i <= n,
            copy@ == collect(pairs.take(i as int)),
        decreases n - i,
    {
        copy.insert(map.name_at(i).to_owned(), *map.value_at(i));
        assert(pairs.take(i + 1).drop_last() =~= pairs.take(i as int));
        i += 1;
    }
    assert(pairs.take(i as int) =~= pairs);
    copy
}

/// An observation of its own for the other side.
pub fn observation_from_core(o: &crate::types::Observation) -> (observation: Observation)
    ensures
        observation.timestamp_us == o.timestamp_us,
        observation.state@ == o.state@,
        observation.frames@.dom() == o.frames@.dom(),
        forall|k: Seq<char>|
            o.frames@.contains_key(k) ==> same_frame(
                #[trigger] observation.frames@[k],
                *o.frames@[k],
            ),
{
    let n: usize = o.frames.len();
    let ghost pairs = o.frames.pairs();
    let mut frames: FieldMap<VideoFrame> = FieldMap::new();
    let mut i: usize = 0;
    assert(pairs.take(0) =~= Seq::empty());
    assert(frames@.dom() =~= collect(pairs.take(0)).dom());
    while i < n
        invariant
            n == o.frames.pairs().len(),
            pairs == o.frames.pairs(),
            i <= n,
            frames@.dom() == collect(pairs.take(i as int)).dom(),
            forall|k: Seq<char>|
                frames@.contains_key(k) ==> same_frame(
                    #[trigger] frames@[k],
                    *collect(pairs.take(i as int))[k],
                ),
        decreases n - i,
    {
        let frame: VideoFrame = frame_from_core(&**o.frames.value_at(i));
        frames.insert(o.frames.name_at(i).to_owned(), frame);
        proof {
            assert(pairs.take(i + 1).drop_last() =~= pairs.take(i as int));
            assert(frames@.dom() =~= collect(pairs.take(i + 1)).dom());
        }
        i += 1;
    }
    assert(pairs.take(i as int) =~= pairs);
    Observation { timestamp_us: o.timestamp_us, state: copy_fields(&o.state), frames }
}

proof fn lemma_widened_insert(map: Map<Seq<char>, usize>, k: Seq<char>, v: usize)
    ensures
        map.insert(k, v).map_values(|x: usize| x as u64) == map.map_values(
            |x: usize| x as u64,
        ).insert(k, v as u64),
{
    assert(map.insert(k, v).map_values(|x: usize| x as u64) =~= map.map_values(
        |x: usize| x as u64,
    ).insert(k, v as u64));
}

fn widen_counts(map: &FieldMap<usize>) -> (wide: FieldMap<u64>)
    ensures
        wide@ == map@.map_values(|x: usize| x as u64),
{
    let n: usize = map.len();
    let ghost pairs = map.pairs();
    let mut wide: FieldMap<u64> = FieldMap::new();
    let mut i: usize = 0;
    proof {
        assert(pairs.take(0) =~= Seq::empty());
        assert(wide@ =~= collect(pairs.take(0)).map_values(|x: usize| x as u64));
    }
    while i < n
        invariant
            n == map.pairs().len(),
            pairs == map.pairs(),
            i <= n,
            wide@ == collect(pairs.take(i as int)).map_values(|x: usize| x as u64),
        decreases n - i,
    {
        wide.insert(map.name_at(i).to_owned(), *map.value_at(i) as u64);
        proof {
            assert(pairs.take(i + 1).drop_last() =~= pairs.take(i as int));
            lemma_widened_insert(
                collect(pairs.take(i as int)),
                pairs[i as int].0,
                pairs[i as int].1,
            );
        }
        i += 1;
    }
    assert(pairs.take(i as int) =~= pairs);
    wide
}

/// All counts for the other side. Sizes become counts of a fixed width.
pub fn metrics_from_core(m: crate::metrics::PortalMetrics) -> (metrics: PortalMetrics)
    ensures
        metrics.sync.observations_emitted == m.sync.observations_emitted,
        metrics.sync.stale_observations_emitted == m.sync.stale_observations_emitted,
        metrics.sync.states_dropped == m.sync.states_dropped,
        metrics.sync.match_delta_us_p50 == m.sync.match_delta_us_p50,
        metrics.sync.match_delta_us_p95 == m.sync.match_delta_us_p95,
        metrics.sync.last_blocker_track == m.sync.last_blocker_track,
        metrics.transport.frames_sent == m.transport.frames_sent,
        metrics.transport.frames_received == m.transport.frames_received,
        metrics.transport.states_sent == m.transport.states_sent,
        metrics.transport.states_received == m.transport.states_received,
        metrics.transport.actions_sent == m.transport.actions_sent,
        metrics.transport.actions_received == m.transport.actions_received,
        metrics.transport.frame_jitter_us == m.transport.frame_jitter_us,
        metrics.transport.state_jitter_us == m.transport.state_jitter_us,
        metrics.transport.action_jitter_us == m.transport.action_jitter_us,
        metrics.buffers.video_fill@ == m.buffers.video_fill@.map_values(|x: usize| x as u64),
        metrics.buffers.state_fill == m.buffers.state_fill,
        metrics.buffers.evictions == m.buffers.evictions,
        metrics.rtt.rtt_us_last == m.rtt.rtt_us_last,
        metrics.rtt.rtt_us_mean == m.rtt.rtt_us_mean,
        metrics.rtt.rtt_us_p95 == m.rtt.rtt_us_p95,
        metrics.rtt.pings_sent == m.rtt.pings_sent,
        metrics.rtt.pongs_received == m.rtt.pongs_received,
{
    let video_fill: FieldMap<u64> = widen_counts(&m.buffers.video_fill);
    PortalMetrics {
        sync: SyncMetrics {
            observations_emitted: m.sync.observations_emitted,
            stale_observations_emitted: m.sync.stale_observations_emitted,
            states_dropped: m.sync.states_dropped,
            match_delta_us_p50: m.sync.match_delta_us_p50,
            match_delta_us_p95: m.sync.match_delta_us_p95,
            last_blocker_track: m.sync.last_blocker_track,
        },
        transport: TransportMetrics {
            frames_sent: m.transport.frames_sent,
            frames_received: m.transport.frames_received,
            states_sent: m.transport.states_sent,
            states_received: m.transport.states_received,
            actions_sent: m.transport.actions_sent,
            actions_received: m.transport.actions_received,
            frame_jitter_us: m.transport.frame_jitter_us,
            state_jitter_us: m.transport.state_jitter_us,
            action_jitter_us: m.transport.action_jitter_us,
        },
        buffers: BufferMetrics {
            video_fill,
            state_fill: m.buffers.state_fill as u64,
            evictions: m.buffers.evictions,
        },
        rtt: RttMetrics {
            rtt_us_last: m.rtt.rtt_us_last,
            rtt_us_mean: m.rtt.rtt_us_mean,
            rtt_us_p95: m.rtt.rtt_us_p95,
            pings_sent: m.rtt.pings_sent,
            pongs_received: m.rtt.pongs_received,
        },
    }
}

/// The declared type of a field.
pub fn dtype_for(schema: &[crate::config::FieldSpec], name: &str) -> (dtype: crate::dtype::DType)
    ensures
        dtype == crate::typed::declared_dtype(crate::config::schema_view(schema@), name@),
{
    let ghost all = crate::config::schema_view(schema@);
    let mut i: usize = 0;
    assert(all.skip(0) =~= all);
    while i < schema.len()
        invariant
            i <= schema@.len(),
            all == crate::config::schema_view(schema@),
            crate::typed::declared_dtype(all, name@) == crate::typed::declared_dtype(all.skip(i as int), name@),
        decreases schema@.len() - i,
    {
        assert(all.skip(i as int)[0] == schema@[i as int]@);
        if same_text(schema[i].name.as_str(), name) {
            return schema[i].dtype;
        }
        assert(all.skip(i as int).skip(1) =~= all.skip(i + 1));
        i += 1;
    }
    crate::dtype::DType::F64
}

/// Numbers from the other side, each as a value of the type that its field was declared with.
pub fn f64_to_typed(values: &FieldMap<Double>, schema: &[crate::config::FieldSpec]) -> (typed:
    FieldMap<TypedValue>)
    ensures
        typed@ == as_declared(values@, crate::config::schema_view(schema@)),
{
    let n: usize = values.len();
    let ghost pairs = values.pairs();
    let ghost fields = crate::config::schema_view(schema@);
    let mut typed: FieldMap<TypedValue> = FieldMap::new();
    let mut i: usize = 0;
    assert(pairs.take(0) =~= Seq::empty());
    assert(typed@ =~= as_declared(collect(pairs.take(0)), fields));
    while i < n
        invariant
            n == values.pairs().len(),
            pairs == values.pairs(),
            fields == crate::config::schema_view(schema@),
            i <= n,
            typed@ == as_declared(collect(pairs.take(i as int)), fields),
        decreases n - i,
    {
        let dtype: crate::dtype::DType = dtype_for(schema, values.name_at(i));
        typed.insert(
            values.name_at(i).to_owned(),
            TypedValue::from_f64(*values.value_at(i), dtype),
        );
        proof {
            assert(pairs.take(i + 1).drop_last() =~= pairs.take(i as int));
            assert(typed@ =~= as_declared(collect(pairs.take(i + 1)), fields));
        }
        i += 1;
    }
    assert(pairs.take(i as int) =~= pairs);
    typed
}

/// Roles and types keep their meaning across the boundary.
pub proof fn law_enums_keep_their_meaning(role: Role, dtype: DType)
    ensures
        <crate::types::Role as vstd::std_specs::convert::FromSpec<Role>>::from_spec(role)
            == crate::types::Role::Robot <==> role == Role::Robot,
        ({
            let core =
                <crate::dtype::DType as vstd::std_specs::convert::FromSpec<DType>>::from_spec(
                dtype,
            );
            &&& core == crate::dtype::DType::F64 <==> dtype == DType::F64
            &&& core == crate::dtype::DType::F32 <==> dtype == DType::F32
            &&& core == crate::dtype::DType::I32 <==> dtype == DType::I32
            &&& core == crate::dtype::DType::I16 <==> dtype == DType::I16
            &&& core == crate::dtype::DType::I8 <==> dtype == DType::I8
            &&& core == crate::dtype::DType::U32 <==> dtype == DType::U32
            &&& core == crate::dtype::DType::U16 <==> dtype == DType::U16
            &&& core == crate::dtype::DType::U8 <==> dtype == DType::U8
            &&& core == crate::dtype::DType::Bool <==> dtype == DType::Bool
        }),
{
}

/// A failed call crosses the boundary in both directions without loss.
pub proof fn law_rpc_errors_cross(e: crate::error::RpcError)
    ensures
        <crate::error::RpcError as vstd::std_specs::convert::FromSpec<RpcError>>::from_spec(
            <RpcError as vstd::std_specs::convert::FromSpec<crate::error::RpcError>>::from_spec(e),
        ) == e,
        <RpcError as vstd::std_specs::convert::FromSpec<crate::error::RpcError>>::from_spec(
            e,
        ) matches RpcError::Error { code, message, data } && code == e.code && message == e.message
            && data == e.data,
{
}

/// An error crosses the boundary as an error of its own kind with what it says; a size that does
/// not fit is told as the largest that does.
pub proof fn law_errors_keep_their_kind(e: crate::error::PortalError)
    ensures
        ({
            let told =
                <PortalError as vstd::std_specs::convert::FromSpec<
                crate::error::PortalError,
            >>::from_spec(e);
            match e {
                crate::error::PortalError::Room(s) => told matches PortalError::Room(t) && t == s,
                crate::error::PortalError::AlreadyConnected => told is AlreadyConnected,
                crate::error::PortalError::NotConnected => told is NotConnected,
                crate::error::PortalError::NoPeer => told is NoPeer,
                crate::error::PortalError::AmbiguousPeer => told is AmbiguousPeer,
                crate::error::PortalError::UnknownVideoTrack { name } =>
                told matches PortalError::UnknownVideoTrack(t) && t == name,
                crate::error::PortalError::UnknownChunk { name } =>
                told matches PortalError::UnknownChunk(t) && t == name,
                crate::error::PortalError::WrongValueCount { expected, got } =>
                told matches PortalError::WrongValueCount { expected: x, got: y } && y == got && (
                expected <= u64::MAX ==> x == expected) && (expected > u64::MAX ==> x == u64::MAX),
                crate::error::PortalError::WrongFrameSize { expected, got } =>
                told matches PortalError::WrongFrameSize { expected: x, got: y } && y == got && (
                expected <= u64::MAX ==> x == expected) && (expected > u64::MAX ==> x == u64::MAX),
                crate::error::PortalError::InvalidFrameDimensions { width, height } =>
                told matches PortalError::InvalidFrameDimensions { width: w, height: h } && w
                    == width && h == height,
                crate::error::PortalError::Deserialization(s) =>
                told matches PortalError::Deserialization(t) && t == s,
                crate::error::PortalError::WrongRole(r) => told matches PortalError::WrongRole(t)
                    && (t == Role::Robot <==> r == crate::types::Role::Robot),
                crate::error::PortalError::DtypeMismatch { field, expected, got } =>
                told matches PortalError::DtypeMismatch { field: f, expected: x, got: g } && f
                    == field && g == got && x == dtype_across(expected),
                crate::error::PortalError::Rpc(r) => told matches PortalError::Rpc {
                    code,
                    message,
                    data,
                } && code == r.code && message == r.message && data == r.data,
                crate::error::PortalError::DataTrack(s) => told matches PortalError::DataTrack(t)
                    && t == s,
                crate::error::PortalError::Internal(s) => told matches PortalError::Internal(t) && t
                    == s,
            }
        }),
{
}

/// The same picture has the same size, the same bytes and the same time.
pub proof fn law_same_frame(a: VideoFrame, b: VideoFrameData)
    ensures
        same_frame(a, b) <==> a.width == b.width && a.height == b.height && a.timestamp_us
            == b.timestamp_us && a.data@.len() == b.data@.len() && forall|i: int|
            0 <= i < a.data@.len() ==> #[trigger] a.data@[i] == b.data@[i],
{
    if a.data@.len() == b.data@.len() && forall|i: int|
        0 <= i < a.data@.len() ==> #[trigger] a.data@[i] == b.data@[i] {
        assert(a.data@ =~= b.data@);
    }
}

/// The record of an error is named after its kind.
pub proof fn law_kinds_are_named(e: crate::error::ErrorView)
    ensures
        e is Room ==> variant_name(e) == "Room"@,
        e is AlreadyConnected ==> variant_name(e) == "AlreadyConnected"@,
        e is NotConnected ==> variant_name(e) == "NotConnected"@,
        e is NoPeer ==> variant_name(e) == "NoPeer"@,
        e is AmbiguousPeer ==> variant_name(e) == "AmbiguousPeer"@,
        e is UnknownVideoTrack ==> variant_name(e) == "UnknownVideoTrack"@,
        e is UnknownChunk ==> variant_name(e) == "UnknownChunk"@,
        e is WrongValueCount ==> variant_name(e) == "WrongValueCount"@,
        e is WrongFrameSize ==> variant_name(e) == "WrongFrameSize"@,
        e is InvalidFrameDimensions ==> variant_name(e) == "InvalidFrameDimensions"@,
        e is Deserialization ==> variant_name(e) == "Deserialization"@,
        e is WrongRole ==> variant_name(e) == "WrongRole"@,
        e is DtypeMismatch ==> variant_name(e) == "DtypeMismatch"@,
        e is Rpc ==> variant_name(e) == "Rpc"@,
        e is DataTrack ==> variant_name(e) == "DataTrack"@,
        e is Internal ==> variant_name(e) == "Internal"@,
{
}

} // verus!
