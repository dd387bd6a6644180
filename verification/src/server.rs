//! Objects behind handles, and the requests that are made of them.

use vstd::prelude::*;

use dashmap::DashMap;

use crate::config::{
    copy_texts, is_positive, schema_view, ConfigView, FieldSpec, FieldView, PortalConfig,
};
use crate::data::{publisher_after, row_answer, OutgoingPacket};
use crate::double::{Double, Single};
use crate::dtype::DType;
use crate::error::PortalResult;
use crate::ffi::{
    copy_fields, f64_to_typed, frame_from_core, observation_from_core, same_frame, ErrorRecord,
};
use crate::field_map::FieldMap;
use crate::portal::{Portal, PortalView};
use crate::typed::{as_declared, TypedValue};
use crate::types::{texts, Role};

verus! {

pub type FfiHandleId = u64;

/// What is no handle.
pub const INVALID_HANDLE: u64 = 0;

/// The map of `dashmap` from numbers to numbers.
#[verifier::external_type_specification]
#[verifier::external_body]
#[verifier::reject_recursive_types(K)]
#[verifier::reject_recursive_types(V)]
#[verifier::reject_recursive_types(S)]
pub struct ExDashMap<K, V, S>(dashmap::DashMap<K, V, S>);

/// What a map holds.
pub uninterp spec fn held(map: DashMap<u64, usize>) -> Map<u64, usize>;

/// The map without entries.
pub open spec fn nothing() -> Map<u64, usize> {
    Map::empty()
}

/// `dashmap::DashMap::new`: a map that holds nothing.
#[verifier::external_body]
fn map_new() -> (map: DashMap<u64, usize>)
    ensures
        held(map) == nothing(),
{
    DashMap::new()
}

/// `dashmap::DashMap::insert`: sets the value of a key and returns the one it had. The map is
/// borrowed for itself alone, so no reference into it can be held meanwhile.
#[verifier::external_body]
fn map_insert(map: &mut DashMap<u64, usize>, key: u64, value: usize) -> (before: Option<usize>)
    ensures
        held(*final(map)) == held(*old(map)).insert(key, value),
        before == (if held(*old(map)).contains_key(key) {
            Some(held(*old(map))[key])
        } else {
            None
        }),
{
    map.insert(key, value)
}

/// `dashmap::DashMap::get`: the value of a key. It is copied out, so that no reference into
/// the map stays.
#[verifier::external_body]
fn map_get(map: &DashMap<u64, usize>, key: u64) -> (value: Option<usize>)
    ensures
        value == (if held(*map).contains_key(key) {
            Some(held(*map)[key])
        } else {
            None
        }),
{
    map.get(&key).map(|entry| *entry.value())
}

/// `dashmap::DashMap::remove`: removes a key and returns the value it had. The map is borrowed
/// for itself alone, so no reference into it can be held meanwhile.
#[verifier::external_body]
fn map_remove(map: &mut DashMap<u64, usize>, key: u64) -> (before: Option<usize>)
    ensures
        held(*final(map)) == held(*old(map)).remove(key),
        before == (if held(*old(map)).contains_key(key) {
            Some(held(*old(map))[key])
        } else {
            None
        }),
{
    map.remove(&key).map(|entry| entry.1)
}

/// Why a request came to nothing.
#[derive(Debug)]
pub enum FfiError {
    HandleNotFound(u64),
    HandleTypeMismatch(u64),
    InvalidRequest(String),
    /// The core does not accept the value.
    Rejected(String),
}

pub type FfiResult<T> = Result<T, FfiError>;

/// What a failed request says.
pub enum FfiErrorView {
    HandleNotFound(u64),
    HandleTypeMismatch(u64),
    InvalidRequest(Seq<char>),
    Rejected(Seq<char>),
}

impl View for FfiError {
    type V = FfiErrorView;

    open spec fn view(&self) -> FfiErrorView {
        match *self {
            FfiError::HandleNotFound(id) => FfiErrorView::HandleNotFound(id),
            FfiError::HandleTypeMismatch(id) => FfiErrorView::HandleTypeMismatch(id),
            FfiError::InvalidRequest(text) => FfiErrorView::InvalidRequest(text@),
            FfiError::Rejected(text) => FfiErrorView::Rejected(text@),
        }
    }
}

/// The names that were declared, in order.
pub struct DeclaredFields {
    pub video_tracks: Vec<String>,
    pub state_fields: Vec<String>,
    pub action_fields: Vec<String>,
}

/// What was declared.
#[verifier::ext_equal]
pub struct DeclaredView {
    pub video_tracks: Seq<Seq<char>>,
    pub state_fields: Seq<Seq<char>>,
    pub action_fields: Seq<Seq<char>>,
}

impl View for DeclaredFields {
    type V = DeclaredView;

    open spec fn view(&self) -> DeclaredView {
        DeclaredView {
            video_tracks: texts(self.video_tracks@),
            state_fields: texts(self.state_fields@),
            action_fields: texts(self.action_fields@),
        }
    }
}

/// A configuration behind a handle, with the declared names at hand.
pub struct FfiPortalConfig {
    config: PortalConfig,
    declared: DeclaredFields,
}

/// What a configuration behind a handle says.
#[verifier::ext_equal]
pub struct FfiConfigView {
    pub config: ConfigView,
    pub declared: DeclaredView,
}

impl View for FfiPortalConfig {
    type V = FfiConfigView;

    closed spec fn view(&self) -> FfiConfigView {
        FfiConfigView { config: self.config@, declared: self.declared@ }
    }
}

/// One change to a configuration.
pub enum ConfigEdit {
    AddVideo(String),
    AddState(Vec<String>),
    AddAction(Vec<String>),
    SetFps(u32),
    SetSlack(u32),
    SetTolerance(Single),
    SetStateReliable(bool),
    SetActionReliable(bool),
    SetPingMs(u64),
}

/// Fields of the widest type with these names.
pub open spec fn untyped(names: Seq<Seq<char>>) -> Seq<FieldView> {
    names.map_values(|n: Seq<char>| FieldView { name: n, dtype: DType::F64 })
}

impl FfiConfigView {
    /// A configuration in which nothing is declared.
    pub open spec fn initial(config: ConfigView) -> FfiConfigView {
        FfiConfigView {
            config,
            declared: DeclaredView {
                video_tracks: Seq::empty(),
                state_fields: Seq::empty(),
                action_fields: Seq::empty(),
            },
        }
    }

    /// What a change comes to, or why it is not accepted.
    pub open spec fn edited(self, edit: ConfigEdit) -> Result<FfiConfigView, Seq<char>> {
        match edit {
            ConfigEdit::AddVideo(name) => Ok(
                FfiConfigView {
                    config: ConfigView {
                        video_tracks: self.config.video_tracks.push(name@),
                        ..self.config
                    },
                    declared: DeclaredView {
                        video_tracks: self.declared.video_tracks.push(name@),
                        ..self.declared
                    },
                },
            ),
            ConfigEdit::AddState(fields) => Ok(
                FfiConfigView {
                    config: ConfigView {
                        state_schema: self.config.state_schema + untyped(texts(fields@)),
                        ..self.config
                    },
                    declared: DeclaredView {
                        state_fields: self.declared.state_fields + texts(fields@),
                        ..self.declared
                    },
                },
            ),
            ConfigEdit::AddAction(fields) => Ok(
                FfiConfigView {
                    config: ConfigView {
                        action_schema: self.config.action_schema + untyped(texts(fields@)),
                        ..self.config
                    },
                    declared: DeclaredView {
                        action_fields: self.declared.action_fields + texts(fields@),
                        ..self.declared
                    },
                },
            ),
            ConfigEdit::SetFps(fps) => if fps == 0 {
                Err("fps must be > 0"@)
            } else {
                Ok(FfiConfigView { config: ConfigView { fps, ..self.config }, ..self })
            },
            ConfigEdit::SetSlack(slack) => if slack == 0 {
                Err("slack must be > 0"@)
            } else {
                Ok(FfiConfigView { config: ConfigView { slack, ..self.config }, ..self })
            },
            ConfigEdit::SetTolerance(tolerance) => if !is_positive(tolerance) {
                Err("tolerance must be > 0"@)
            } else {
                Ok(FfiConfigView { config: ConfigView { tolerance, ..self.config }, ..self })
            },
            ConfigEdit::SetStateReliable(state_reliable) => Ok(
                FfiConfigView { config: ConfigView { state_reliable, ..self.config }, ..self },
            ),
            ConfigEdit::SetActionReliable(action_reliable) => Ok(
                FfiConfigView { config: ConfigView { action_reliable, ..self.config }, ..self },
            ),
            ConfigEdit::SetPingMs(ping_ms) => Ok(
                FfiConfigView { config: ConfigView { ping_ms, ..self.config }, ..self },
            ),
        }
    }
}

/// Fields of the widest type with these names.
fn untyped_fields(names: &Vec<String>) -> (fields: Vec<FieldSpec>)
    ensures
        schema_view(fields@) == untyped(texts(names@)),
{
    let mut fields: Vec<FieldSpec> = Vec::new();
    let mut i: usize = 0;
    while i < names.len()
        invariant
            i <= names@.len(),
            fields@.len() == i,
            forall|j: int|
                0 <= j < i ==> (#[trigger] fields@[j])@ == (FieldView {
                    name: names@[j]@,
                    dtype: DType::F64,
                }),
        decreases names@.len() - i,
    {
        fields.push(FieldSpec::new(names[i].clone(), DType::F64));
        i += 1;
    }
    assert(schema_view(fields@) =~= untyped(texts(names@)));
    fields
}

fn extend_names(names: &mut Vec<String>, more: Vec<String>)
    ensures
        texts(final(names)@) == texts(old(names)@) + texts(more@),
{
    let mut more = more;
    let ghost added = more@;
    names.append(&mut more);
    assert(texts(names@) =~= texts(old(names)@) + texts(added));
}

/// Whether a number is above zero.
fn above_zero(x: Single) -> (positive: bool)
    ensures
        positive == is_positive(x),
{
    let e: u32 = (x.bits / 0x80_0000) % 256;
    let f: u32 = x.bits % 0x80_0000;
    !(e == 255 && f != 0) && x.bits < 0x8000_0000 && x.bits != 0
}

impl FfiPortalConfig {
    pub fn new(config: PortalConfig) -> (c: FfiPortalConfig)
        ensures
            c@ == FfiConfigView::initial(config@),
    {
        let c = FfiPortalConfig {
            config,
            declared: DeclaredFields {
                video_tracks: Vec::new(),
                state_fields: Vec::new(),
                action_fields: Vec::new(),
            },
        };
        assert(c@ =~= FfiConfigView::initial(config@));
        c
    }

    pub fn add_video(&mut self, name: String)
        ensures
            old(self)@.edited(ConfigEdit::AddVideo(name)) == Ok::<FfiConfigView, Seq<char>>(
                final(self)@,
            ),
    {
        self.config.add_video(name.clone());
        self.declared.video_tracks.push(name);
        assert(self@.declared.video_tracks =~= old(self)@.declared.video_tracks.push(name@));
    }

    pub fn add_state(&mut self, fields: Vec<String>)
        ensures
            old(self)@.edited(ConfigEdit::AddState(fields)) == Ok::<FfiConfigView, Seq<char>>(
                final(self)@,
            ),
    {
        self.config.add_state_typed(untyped_fields(&fields));
        extend_names(&mut self.declared.state_fields, fields);
    }

    pub fn add_action(&mut self, fields: Vec<String>)
        ensures
            old(self)@.edited(ConfigEdit::AddAction(fields)) == Ok::<FfiConfigView, Seq<char>>(
                final(self)@,
            ),
    {
        self.config.add_action_typed(untyped_fields(&fields));
        extend_names(&mut self.declared.action_fields, fields);
    }

    /// Makes a change, or says why it is not accepted and changes nothing.
    pub fn edit(&mut self, edit: ConfigEdit) -> (r: Result<(), String>)
        ensures
            match r {
                Ok(_) => old(self)@.edited(edit) == Ok::<FfiConfigView, Seq<char>>(final(self)@),
                Err(text) => old(self)@.edited(edit) == Err::<FfiConfigView, Seq<char>>(text@)
                    && final(self)@ == old(self)@,
            },
    {
        match edit {
            ConfigEdit::AddVideo(name) => self.add_video(name),
            ConfigEdit::AddState(fields) => self.add_state(fields),
            ConfigEdit::AddAction(fields) => self.add_action(fields),
            ConfigEdit::SetFps(fps) => {
                if fps == 0 {
                    return Err("fps must be > 0".to_owned());
                }
                self.config.set_fps(fps);
            },
            ConfigEdit::SetSlack(ticks) => {
                if ticks == 0 {
                    return Err("slack must be > 0".to_owned());
                }
                self.config.set_slack(ticks);
            },
            ConfigEdit::SetTolerance(ticks) => {
                if !above_zero(ticks) {
                    return Err("tolerance must be > 0".to_owned());
                }
                self.config.set_tolerance(ticks);
            },
            ConfigEdit::SetStateReliable(reliable) => self.config.set_state_reliable(reliable),
            ConfigEdit::SetActionReliable(reliable) => self.config.set_action_reliable(reliable),
            ConfigEdit::SetPingMs(ms) => self.config.set_ping_ms(ms),
        }
        Ok(())
    }

    /// A copy of the configuration.
    pub fn snapshot(&self) -> (config: PortalConfig)
        ensures
            config@ == self@.config,
    {
        self.config.copy()
    }

    /// The declared names.
    pub fn declared_fields(&self) -> (declared: DeclaredFields)
        ensures
            declared@ == self@.declared,
    {
        DeclaredFields {
            video_tracks: copy_texts(&self.declared.video_tracks),
            state_fields: copy_texts(&self.declared.state_fields),
            action_fields: copy_texts(&self.declared.action_fields),
        }
    }
}

/// Something to tell the other side.
pub enum FfiEvent {
    Action { portal_handle: u64, values: FieldMap<Double> },
    State { portal_handle: u64, values: FieldMap<Double> },
    Observation { portal_handle: u64, observation: crate::ffi::Observation },
    Drop { portal_handle: u64, dropped: Vec<FieldMap<Double>> },
    VideoFrame { portal_handle: u64, track_name: String, frame: crate::ffi::VideoFrame },
    Connected { async_id: u64, error: Option<ErrorRecord> },
    Disconnected { async_id: u64, error: Option<ErrorRecord> },
}

/// A portal behind a handle. Everything it receives is told to the other side, under the
/// handle.
pub struct FfiPortal {
    handle: u64,
    inner: Portal,
    declared: DeclaredFields,
}

/// What a portal behind a handle knows.
#[verifier::ext_equal]
pub struct FfiPortalView {
    pub handle: u64,
    pub portal: PortalView,
    pub declared: DeclaredView,
}

impl View for FfiPortal {
    type V = FfiPortalView;

    closed spec fn view(&self) -> FfiPortalView {
        FfiPortalView { handle: self.handle, portal: self.inner@, declared: self.declared@ }
    }
}

impl FfiPortal {
    pub closed spec fn wf(&self) -> bool {
        self.inner.wf()
    }

    pub fn new(handle: u64, inner: Portal, declared: DeclaredFields) -> (portal: FfiPortal)
        requires
            inner.wf(),
        ensures
            portal.wf(),
            portal@ == (FfiPortalView { handle, portal: inner@, declared: declared@ }),
    {
        FfiPortal { handle, inner, declared }
    }

    /// What is told of a received action.
    pub fn action_event(&self, values: &FieldMap<Double>) -> (event: FfiEvent)
        ensures
            event matches FfiEvent::Action { portal_handle, values: v } && portal_handle
                == self@.handle && v@ == values@,
    {
        FfiEvent::Action { portal_handle: self.handle, values: copy_fields(values) }
    }

    /// What is told of a received state.
    pub fn state_event(&self, values: &FieldMap<Double>) -> (event: FfiEvent)
        ensures
            event matches FfiEvent::State { portal_handle, values: v } && portal_handle
                == self@.handle && v@ == values@,
    {
        FfiEvent::State { portal_handle: self.handle, values: copy_fields(values) }
    }

    /// What is told of an observation.
    pub fn observation_event(&self, o: &crate::types::Observation) -> (event: FfiEvent)
        ensures
            event matches FfiEvent::Observation { portal_handle, observation } && portal_handle
                == self@.handle && same_observation(observation, *o),
    {
        FfiEvent::Observation {
            portal_handle: self.handle,
            observation: observation_from_core(o),
        }
    }

    /// What is told of dropped states.
    pub fn drop_event(&self, dropped: Vec<FieldMap<Double>>) -> (event: FfiEvent)
        ensures
            event == (FfiEvent::Drop { portal_handle: self@.handle, dropped }),
    {
        FfiEvent::Drop { portal_handle: self.handle, dropped }
    }

    /// What is told of a frame.
    pub fn video_frame_event(&self, track: &str, frame: &crate::types::VideoFrameData) -> (event:
        FfiEvent)
        ensures
            event matches FfiEvent::VideoFrame { portal_handle, track_name, frame: f }
                && portal_handle == self@.handle && track_name@ == track@ && same_frame(
                f,
                *frame,
            ),
    {
        FfiEvent::VideoFrame {
            portal_handle: self.handle,
            track_name: track.to_owned(),
            frame: frame_from_core(frame),
        }
    }

    /// The packet for a state.
    pub fn send_state(
        &mut self,
        values: &FieldMap<Double>,
        timestamp_us: Option<u64>,
        now_us: u64,
    ) -> (packet: PortalResult<OutgoingPacket>)
        requires
            old(self).wf(),
        ensures
            final(self).wf(),
            ({
                let typed = as_declared(values@, old(self)@.portal.config.state_schema);
                &&& row_answer(
                    old(self)@.portal.state_publisher,
                    Role::Operator,
                    typed,
                    timestamp_us,
                    None,
                    now_us,
                    packet,
                )
                &&& final(self)@ == (FfiPortalView {
                    portal: PortalView {
                        state_publisher: publisher_after(
                            old(self)@.portal.state_publisher,
                            typed,
                        ),
                        ..old(self)@.portal
                    },
                    ..old(self)@
                })
            }),
    {
        let typed: FieldMap<TypedValue> = f64_to_typed(values, self.inner.state_schema());
        self.inner.send_state(&typed, timestamp_us, now_us)
    }

    /// The packet for an action.
    pub fn send_action(
        &mut self,
        values: &FieldMap<Double>,
        timestamp_us: Option<u64>,
        now_us: u64,
    ) -> (packet: PortalResult<OutgoingPacket>)
        requires
            old(self).wf(),
        ensures
            final(self).wf(),
            ({
                let typed = as_declared(values@, old(self)@.portal.config.action_schema);
                &&& row_answer(
                    old(self)@.portal.action_publisher,
                    Role::Robot,
                    typed,
                    timestamp_us,
                    None,
                    now_us,
                    packet,
                )
                &&& final(self)@ == (FfiPortalView {
                    portal: PortalView {
                        action_publisher: publisher_after(
                            old(self)@.portal.action_publisher,
                            typed,
                        ),
                        ..old(self)@.portal
                    },
                    ..old(self)@
                })
            }),
    {
        let typed: FieldMap<TypedValue> = f64_to_typed(values, self.inner.action_schema());
        self.inner.send_action(&typed, timestamp_us, None, now_us)
    }

    /// The names that were declared.
    pub fn declared(&self) -> (declared: DeclaredFields)
        ensures
            declared@ == self@.declared,
    {
        DeclaredFields {
            video_tracks: copy_texts(&self.declared.video_tracks),
            state_fields: copy_texts(&self.declared.state_fields),
            action_fields: copy_texts(&self.declared.action_fields),
        }
    }

    /// Takes the portal out to work on it.
    pub fn into_inner(self) -> (inner: Portal)
        requires
            self.wf(),
        ensures
            inner.wf(),
            inner@ == self@.portal,
    {
        self.inner
    }

    /// The portal.
    pub fn inner(&self) -> (inner: &Portal)
        requires
            self.wf(),
        ensures
            inner.wf(),
            inner@ == self@.portal,
    {
        &self.inner
    }
}

/// Two observations are the same.
pub open spec fn same_observation(
    a: crate::ffi::Observation,
    b: crate::types::Observation,
) -> bool {
    &&& a.timestamp_us == b.timestamp_us
    &&& a.state@ == b.state@
    &&& a.frames@.dom() == b.frames@.dom()
    &&& forall|k: Seq<char>|
        b.frames@.contains_key(k) ==> same_frame(#[trigger] a.frames@[k], *b.frames@[k])
}

/// An encoded response, kept until its handle is dropped.
#[derive(Debug)]
pub struct FfiDataBuffer {
    data: Vec<u8>,
}

impl View for FfiDataBuffer {
    type V = Seq<u8>;

    closed spec fn view(&self) -> Seq<u8> {
        self.data@
    }
}

impl FfiDataBuffer {
    pub fn new(data: Vec<u8>) -> (buffer: FfiDataBuffer)
        ensures
            buffer@ == data@,
    {
        FfiDataBuffer { data }
    }

    /// The bytes.
    pub fn as_slice(&self) -> (bytes: &[u8])
        ensures
            bytes@ == self@,
    {
        self.data.as_slice()
    }

    pub fn len(&self) -> (len: usize)
        ensures
            len == self@.len(),
    {
        self.data.len()
    }
}

/// Whatever a handle may stand for.
pub enum HandleObject {
    Config(FfiPortalConfig),
    Portal(FfiPortal),
    Buffer(FfiDataBuffer),
}

/// What an object behind a handle knows.
pub enum ObjectView {
    Config(FfiConfigView),
    Portal(FfiPortalView),
    Buffer(Seq<u8>),
}

impl View for HandleObject {
    type V = ObjectView;

    open spec fn view(&self) -> ObjectView {
        match *self {
            HandleObject::Config(c) => ObjectView::Config(c@),
            HandleObject::Portal(p) => ObjectView::Portal(p@),
            HandleObject::Buffer(b) => ObjectView::Buffer(b@),
        }
    }
}

impl HandleObject {
    pub open spec fn wf(&self) -> bool {
        match *self {
            HandleObject::Portal(p) => p.wf(),
            _ => true,
        }
    }
}

/// Who uses the server.
pub struct FfiConfig {
    pub sdk: String,
    pub sdk_version: String,
}

/// Keeps objects behind handles.
pub struct FfiServer {
    handles: DashMap<u64, usize>,
    objects: Vec<Option<HandleObject>>,
    /// The places of `objects` that hold nothing.
    free: Vec<usize>,
    next_id: u64,
    config: Option<FfiConfig>,
}

/// What a server keeps.
#[verifier::ext_equal]
pub struct ServerView {
    pub handles: Map<u64, ObjectView>,
    pub next_id: u64,
    pub config: Option<(Seq<char>, Seq<char>)>,
}

/// The number after `id`; after the last comes the first again.
pub open spec fn following(id: u64) -> u64 {
    if id == u64::MAX {
        0
    } else {
        (id + 1) as u64
    }
}

impl ServerView {
    /// A server without objects. Zero is no handle, so the first is one.
    pub open spec fn initial() -> ServerView {
        ServerView { handles: Map::empty(), next_id: 1, config: None }
    }

    pub open spec fn numbered(self) -> ServerView {
        ServerView { next_id: following(self.next_id), ..self }
    }

    pub open spec fn stored(self, id: u64, object: ObjectView) -> ServerView {
        ServerView { handles: self.handles.insert(id, object), ..self }
    }

    /// Every handle in use was given out by this server, which still has numbers left.
    pub open spec fn orderly(self) -> bool {
        &&& self.next_id >= 1
        &&& forall|id: u64| #[trigger]
            self.handles.contains_key(id) ==> 1 <= id < self.next_id
    }

    /// Why there is no configuration behind a handle, if there is none.
    pub open spec fn config_fault(self, id: u64) -> Option<FfiErrorView> {
        if !self.handles.contains_key(id) {
            Some(FfiErrorView::HandleNotFound(id))
        } else if !(self.handles[id] is Config) {
            Some(FfiErrorView::HandleTypeMismatch(id))
        } else {
            None
        }
    }

    /// Why there is no portal behind a handle, if there is none.
    pub open spec fn portal_fault(self, id: u64) -> Option<FfiErrorView> {
        if !self.handles.contains_key(id) {
            Some(FfiErrorView::HandleNotFound(id))
        } else if !(self.handles[id] is Portal) {
            Some(FfiErrorView::HandleTypeMismatch(id))
        } else {
            None
        }
    }
}

impl View for FfiServer {
    type V = ServerView;

    closed spec fn view(&self) -> ServerView {
        ServerView {
            handles: Map::new(
                |id: u64| held(self.handles).contains_key(id),
                |id: u64| self.objects@[held(self.handles)[id] as int]->0@,
            ),
            next_id: self.next_id,
            config: match self.config {
                Some(c) => Some((c.sdk@, c.sdk_version@)),
                None => None,
            },
        }
    }
}

impl FfiServer {
    /// Every handle has an object of its own, and the empty places are known, each once.
    pub closed spec fn wf(&self) -> bool {
        &&& self.free_places_listed()
        &&& forall|id: u64| #[trigger]
            held(self.handles).contains_key(id) ==> {
                let slot = held(self.handles)[id] as int;
                &&& slot < self.objects@.len()
                &&& self.objects@[slot] is Some
                &&& self.objects@[slot]->0.wf()
            }
        &&& forall|a: u64, b: u64| #[trigger]
            held(self.handles).contains_key(a) && #[trigger] held(self.handles).contains_key(b)
                && a != b ==> held(self.handles)[a] != held(self.handles)[b]
    }

    spec fn free_places_listed(&self) -> bool {
        &&& self.free@.no_duplicates()
        &&& forall|i: int|
            0 <= i < self.free@.len() ==> {
                &&& (#[trigger] self.free@[i]) < self.objects@.len()
                &&& self.objects@[self.free@[i] as int] is None
            }
        &&& forall|s: usize|
            s < self.objects@.len() && self.objects@[s as int] is None
                ==> #[trigger] self.free@.contains(s)
    }

    /// How many places there are for objects.
    pub closed spec fn places(&self) -> nat {
        self.objects@.len()
    }

    /// How many of the places hold nothing.
    pub closed spec fn spare(&self) -> nat {
        self.free@.len()
    }

    pub fn new() -> (server: FfiServer)
        ensures
            server.wf(),
            server@ == ServerView::initial(),
    {
        let server = FfiServer {
            handles: map_new(),
            objects: Vec::new(),
            free: Vec::new(),
            next_id: 1,
            config: None,
        };
        assert(server@.handles =~= Map::empty());
        server
    }

    /// A new number.
    pub fn next_id(&mut self) -> (id: u64)
        requires
            old(self).wf(),
        ensures
            final(self).wf(),
            id == old(self)@.next_id,
            final(self)@ == old(self)@.numbered(),
    {
        let id: u64 = self.next_id;
        self.next_id = id.wrapping_add(1);
        assert(self@.handles =~= old(self)@.handles);
        id
    }

    /// The number that a client chose for a request, or a new one where it chose none.
    pub fn resolve_async_id(&mut self, client_id: u64) -> (id: u64)
        requires
            old(self).wf(),
        ensures
            final(self).wf(),
            client_id == 0 ==> id == old(self)@.next_id && final(self)@ == old(self)@.numbered(),
            client_id != 0 ==> id == client_id && final(self)@ == old(self)@,
    {
        if client_id == 0 {
            self.next_id()
        } else {
            client_id
        }
    }

    /// Puts an object behind a handle, in place of any that was there. A new place is made only
    /// where none is spare.
    pub fn store_handle(&mut self, id: u64, object: HandleObject)
        requires
            old(self).wf(),
            object.wf(),
        ensures
            final(self).wf(),
            final(self)@ == old(self)@.stored(id, object@),
            old(self)@.handles.contains_key(id) ==> final(self).places() == old(self).places()
                && final(self).spare() == old(self).spare(),
            !old(self)@.handles.contains_key(id) ==> if old(self).spare() > 0 {
                &&& final(self).places() == old(self).places()
                &&& final(self).spare() == old(self).spare() - 1
            } else {
                &&& final(self).places() == old(self).places() + 1
                &&& final(self).spare() == 0
            },
    {
        let ghost before = held(self.handles);
        let ghost listed = self.free@;
        match map_get(&self.handles, id) {
            Some(slot) => {
                assert(before.contains_key(id));
                self.objects.set(slot, Some(object));
                assert(before.insert(id, slot) =~= before);
            },
            None => {
                let slot: usize = match self.free.pop() {
                    Some(slot) => {
                        assert(listed[listed.len() - 1] == slot);
                        assert(self.free@ =~= listed.drop_last());
                        self.objects.set(slot, Some(object));
                        slot
                    },
                    None => {
                        let slot: usize = self.objects.len();
                        self.objects.push(Some(object));
                        slot
                    },
                };
                let _ = map_insert(&mut self.handles, id, slot);
            },
        }
        proof {
            let slot = held(self.handles)[id];
            assert forall|s: usize|
                s < self.objects@.len() && self.objects@[s as int]
                    is None implies #[trigger] self.free@.contains(s) by {
                assert(s != slot);
                assert(old(self).objects@[s as int] is None);
                assert(listed.contains(s));
                let i = choose|i: int| 0 <= i < listed.len() && listed[i] == s;
                assert(self.free@[i] == s);
            }
            assert forall|i: int| 0 <= i < self.free@.len() implies {
                &&& (#[trigger] self.free@[i]) < self.objects@.len()
                &&& self.objects@[self.free@[i] as int] is None
            } by {
                assert(self.free@[i] == listed[i]);
            }
        }
        proof {
            let after = held(self.handles);
            assert forall|k: u64| #[trigger] after.contains_key(k) implies {
                let s = after[k] as int;
                &&& s < self.objects@.len()
                &&& self.objects@[s] is Some
                &&& self.objects@[s]->0.wf()
                &&& k != id ==> before.contains_key(k) && self.objects@[s]
                    == old(self).objects@[s]
            } by {
                if k != id {
                    assert(before.contains_key(k));
                    assert(old(self).objects@[before[k] as int] is Some);
                    if before.contains_key(id) {
                        assert(before[k] != before[id]);
                    }
                }
            }
            assert forall|a: u64, b: u64| #[trigger]
                after.contains_key(a) && #[trigger] after.contains_key(b) && a
                    != b implies after[a] != after[b] by {
                if a != id {
                    assert(before.contains_key(a));
                    assert(old(self).objects@[before[a] as int] is Some);
                }
                if b != id {
                    assert(before.contains_key(b));
                    assert(old(self).objects@[before[b] as int] is Some);
                }
            }
            assert(self@.handles =~= old(self)@.handles.insert(id, object@)) by {
                assert forall|k: u64| #[trigger] self@.handles.contains_key(k) implies
                    self@.handles[k] == old(self)@.handles.insert(id, object@)[k] by {
                    assert(after.contains_key(k));
                }
            }
        }
    }

    /// Removes a handle and its object. Returned is whether there was one.
    pub fn drop_handle(&mut self, id: u64) -> (existed: bool)
        requires
            old(self).wf(),
        ensures
            final(self).wf(),
            existed == old(self)@.handles.contains_key(id),
            final(self)@ == (ServerView { handles: old(self)@.handles.remove(id), ..old(self)@ }),
            final(self).places() == old(self).places(),
            final(self).spare() == old(self).spare() + if existed {
                1nat
            } else {
                0
            },
    {
        let ghost before = held(self.handles);
        let removed: Option<usize> = map_remove(&mut self.handles, id);
        let existed: bool = match removed {
            Some(slot) => {
                assert(before.contains_key(id));
                self.objects.set(slot, None);
                self.free.push(slot);
                proof {
                    self.lemma_freed(*old(self), slot);
                }
                true
            },
            None => false,
        };
        proof {
            let after = held(self.handles);
            assert forall|k: u64| #[trigger] after.contains_key(k) implies {
                let s = after[k] as int;
                &&& s < self.objects@.len()
                &&& self.objects@[s] is Some
                &&& self.objects@[s]->0.wf()
                &&& before.contains_key(k)
                &&& self.objects@[s] == old(self).objects@[s]
            } by {
                assert(before.contains_key(k));
                if before.contains_key(id) {
                    assert(before[k] != before[id]);
                }
            }
            assert forall|a: u64, b: u64| #[trigger]
                after.contains_key(a) && #[trigger] after.contains_key(b) && a
                    != b implies after[a] != after[b] by {
                assert(before.contains_key(a) && before.contains_key(b));
            }
            assert(self@.handles =~= old(self)@.handles.remove(id)) by {
                assert forall|k: u64| #[trigger] self@.handles.contains_key(k) implies
                    self@.handles[k] == old(self)@.handles.remove(id)[k] by {
                    assert(after.contains_key(k));
                }
            }
        }
        existed
    }

    /// A place that was given back is listed.
    proof fn lemma_freed(&self, before: FfiServer, slot: usize)
        requires
            before.free_places_listed(),
            slot < before.objects@.len(),
            before.objects@[slot as int] is Some,
            self.objects@ == before.objects@.update(slot as int, None),
            self.free@ == before.free@.push(slot),
        ensures
            self.free_places_listed(),
    {
        let listed = before.free@;
        assert forall|i: int, j: int|
            0 <= i < self.free@.len() && 0 <= j < self.free@.len() && i != j implies self.free@[i]
            != self.free@[j] by {
            if i < listed.len() && j < listed.len() {
                assert(listed[i] != listed[j]);
            } else if i < listed.len() {
                assert(before.objects@[listed[i] as int] is None);
            } else {
                assert(before.objects@[listed[j] as int] is None);
            }
        }
        assert forall|i: int| 0 <= i < self.free@.len() implies {
            &&& (#[trigger] self.free@[i]) < self.objects@.len()
            &&& self.objects@[self.free@[i] as int] is None
        } by {
            if i < listed.len() {
                assert(self.free@[i] == listed[i]);
            }
        }
        assert forall|s: usize|
            s < self.objects@.len() && self.objects@[s as int]
                is None implies #[trigger] self.free@.contains(s) by {
            if s == slot {
                assert(self.free@[listed.len() as int] == slot);
            } else {
                assert(before.objects@[s as int] is None);
                assert(listed.contains(s));
                let i = choose|i: int| 0 <= i < listed.len() && listed[i] == s;
                assert(self.free@[i] == s);
            }
        }
    }

    /// The object behind a handle.
    pub fn object(&self, id: u64) -> (object: Option<&HandleObject>)
        requires
            self.wf(),
        ensures
            match object {
                Some(o) => self@.handles.contains_key(id) && o@ == self@.handles[id] && o.wf(),
                None => !self@.handles.contains_key(id),
            },
    {
        match map_get(&self.handles, id) {
            Some(slot) => {
                assert(held(self.handles).contains_key(id));
                self.objects[slot].as_ref()
            },
            None => None,
        }
    }

    /// Takes the object behind a handle out; the handle goes with it.
    pub fn take(&mut self, id: u64) -> (object: Option<HandleObject>)
        requires
            old(self).wf(),
        ensures
            final(self).wf(),
            match object {
                Some(o) => old(self)@.handles.contains_key(id) && o@ == old(self)@.handles[id]
                    && o.wf(),
                None => !old(self)@.handles.contains_key(id),
            },
            final(self)@ == (ServerView { handles: old(self)@.handles.remove(id), ..old(self)@ }),
            final(self).places() == old(self).places(),
            final(self).spare() == old(self).spare() + if object is Some {
                1nat
            } else {
                0
            },
    {
        let slot: usize = match map_get(&self.handles, id) {
            Some(slot) => slot,
            None => {
                assert(self@.handles.remove(id) =~= self@.handles);
                return None;
            },
        };
        assert(held(self.handles).contains_key(id));
        let ghost before = held(self.handles);
        let ghost objects = self.objects@;
        let mut object: Option<HandleObject> = None;
        std::mem::swap(&mut object, &mut self.objects[slot]);
        self.free.push(slot);
        proof {
            self.lemma_freed(*old(self), slot);
        }
        let _ = map_remove(&mut self.handles, id);
        proof {
            let after = held(self.handles);
            assert forall|k: u64| #[trigger] after.contains_key(k) implies {
                let s = after[k] as int;
                &&& s < self.objects@.len()
                &&& self.objects@[s] is Some
                &&& self.objects@[s]->0.wf()
                &&& before.contains_key(k)
                &&& self.objects@[s] == objects[s]
            } by {
                assert(before.contains_key(k));
                assert(before[k] != before[id]);
            }
            assert forall|a: u64, b: u64| #[trigger]
                after.contains_key(a) && #[trigger] after.contains_key(b) && a
                    != b implies after[a] != after[b] by {
                assert(before.contains_key(a) && before.contains_key(b));
            }
            assert(self@.handles =~= old(self)@.handles.remove(id)) by {
                assert forall|k: u64| #[trigger] self@.handles.contains_key(k) implies
                    self@.handles[k] == old(self)@.handles.remove(id)[k] by {
                    assert(after.contains_key(k));
                }
            }
        }
        object
    }

    /// Remembers who uses the server.
    pub fn set_config(&mut self, config: FfiConfig)
        requires
            old(self).wf(),
        ensures
            final(self).wf(),
            final(self)@ == (ServerView {
                config: Some((config.sdk@, config.sdk_version@)),
                ..old(self)@
            }),
    {
        self.config = Some(config);
        assert(self@.handles =~= old(self)@.handles);
    }

    /// Whether an event can be told: only once it is known who uses the server.
    pub fn send_event(&self) -> (deliver: bool)
        ensures
            deliver == (self@.config is Some),
    {
        self.config.is_some()
    }

    /// Keeps an encoded response. Without one there is no handle to return.
    pub fn finish_request(&mut self, encoded: Option<Vec<u8>>) -> (id: u64)
        requires
            old(self).wf(),
        ensures
            final(self).wf(),
            match encoded {
                Some(bytes) => {
                    &&& id == old(self)@.next_id
                    &&& final(self)@ == old(self)@.numbered().stored(
                        id,
                        ObjectView::Buffer(bytes@),
                    )
                },
                None => id == INVALID_HANDLE && final(self)@ == old(self)@,
            },
    {
        match encoded {
            Some(bytes) => {
                let buffer = FfiDataBuffer::new(bytes);
                let id: u64 = self.next_id();
                self.store_handle(id, HandleObject::Buffer(buffer));
                id
            },
            None => INVALID_HANDLE,
        }
    }
}

/// While numbers are left, a new number is no handle in use and not the invalid one, and
/// giving it out and using it keeps it that way.
pub proof fn law_new_handles_are_fresh(server: ServerView, object: ObjectView)
    requires
        server.orderly(),
        server.next_id < u64::MAX,
    ensures
        server.next_id != INVALID_HANDLE,
        !server.handles.contains_key(server.next_id),
        server.numbered().orderly(),
        server.numbered().stored(server.next_id, object).orderly(),
        ServerView::initial().orderly(),
{
}

/// What is stored behind a handle is found there until it is dropped, and nothing else
/// changes.
pub proof fn law_store_then_drop(server: ServerView, id: u64, object: ObjectView, other: u64)
    requires
        other != id,
    ensures
        server.stored(id, object).handles.contains_key(id),
        server.stored(id, object).handles[id] == object,
        server.stored(id, object).handles.contains_key(other) == server.handles.contains_key(
            other,
        ),
        server.handles.contains_key(other) ==> server.stored(id, object).handles[other]
            == server.handles[other],
        !server.stored(id, object).handles.remove(id).contains_key(id),
{
}

/// A new server has no handle in use, starts to number at one and does not know its user.
pub proof fn law_new_server_is_empty()
    ensures
        ServerView::initial().next_id == 1,
        ServerView::initial().config is None,
        forall|id: u64| !#[trigger] ServerView::initial().handles.contains_key(id),
{
}

/// Numbers go on by one, from the last to the first again, and giving one out changes nothing else;
/// nor does putting an object behind a handle.
pub proof fn law_numbers_go_on(server: ServerView, id: u64, object: ObjectView)
    ensures
        server.next_id < u64::MAX ==> server.numbered().next_id == server.next_id + 1,
        server.next_id == u64::MAX ==> server.numbered().next_id == 0,
        server.numbered().handles == server.handles,
        server.numbered().config == server.config,
        server.stored(id, object).next_id == server.next_id,
        server.stored(id, object).config == server.config,
{
}

/// A handle is refused for what is actually wrong with it: nothing is behind it, or something of
/// another kind.
pub proof fn law_handles_are_told_apart(server: ServerView, id: u64)
    ensures
        !server.handles.contains_key(id) ==> {
            &&& server.config_fault(id) == Some(FfiErrorView::HandleNotFound(id))
            &&& server.portal_fault(id) == Some(FfiErrorView::HandleNotFound(id))
        },
        server.handles.contains_key(id) ==> match server.handles[id] {
            ObjectView::Config(_) => {
                &&& server.config_fault(id) is None
                &&& server.portal_fault(id) == Some(FfiErrorView::HandleTypeMismatch(id))
            },
            ObjectView::Portal(_) => {
                &&& server.config_fault(id) == Some(FfiErrorView::HandleTypeMismatch(id))
                &&& server.portal_fault(id) is None
            },
            ObjectView::Buffer(_) => {
                &&& server.config_fault(id) == Some(FfiErrorView::HandleTypeMismatch(id))
                &&& server.portal_fault(id) == Some(FfiErrorView::HandleTypeMismatch(id))
            },
        },
{
}

/// A declaration is added behind the earlier ones, under its name, with fields of the widest type,
/// and changes nothing else.
pub proof fn law_declarations_are_added(
    before: FfiConfigView,
    name: String,
    fields: Vec<String>,
    i: int,
)
    ensures
        before.edited(ConfigEdit::AddVideo(name)) matches Ok(after) && {
            &&& after.config.video_tracks == before.config.video_tracks.push(name@)
            &&& after.declared.video_tracks == before.declared.video_tracks.push(name@)
            &&& after == (FfiConfigView {
                config: ConfigView {
                    video_tracks: after.config.video_tracks,
                    ..before.config
                },
                declared: DeclaredView {
                    video_tracks: after.declared.video_tracks,
                    ..before.declared
                },
            })
        },
        before.edited(ConfigEdit::AddState(fields)) matches Ok(after) && {
            let old_len = before.config.state_schema.len();
            let old_names = before.declared.state_fields.len();
            &&& after.config.state_schema.len() == old_len + fields@.len()
            &&& 0 <= i < old_len ==> after.config.state_schema[i] == before.config.state_schema[i]
            &&& 0 <= i < fields@.len() ==> {
                &&& after.config.state_schema[old_len + i].name == fields@[i]@
                &&& after.config.state_schema[old_len + i].dtype == DType::F64
                &&& after.declared.state_fields[old_names + i] == fields@[i]@
            }
            &&& after.declared.state_fields.take(old_names as int) == before.declared.state_fields
            &&& after == (FfiConfigView {
                config: ConfigView {
                    state_schema: after.config.state_schema,
                    ..before.config
                },
                declared: DeclaredView {
                    state_fields: after.declared.state_fields,
                    ..before.declared
                },
            })
        },
        before.edited(ConfigEdit::AddAction(fields)) matches Ok(after) && {
            let old_len = before.config.action_schema.len();
            let old_names = before.declared.action_fields.len();
            &&& after.config.action_schema.len() == old_len + fields@.len()
            &&& 0 <= i < old_len ==> after.config.action_schema[i]
                == before.config.action_schema[i]
            &&& 0 <= i < fields@.len() ==> {
                &&& after.config.action_schema[old_len + i].name == fields@[i]@
                &&& after.config.action_schema[old_len + i].dtype == DType::F64
                &&& after.declared.action_fields[old_names + i] == fields@[i]@
            }
            &&& after.declared.action_fields.take(old_names as int)
                == before.declared.action_fields
            &&& after == (FfiConfigView {
                config: ConfigView {
                    action_schema: after.config.action_schema,
                    ..before.config
                },
                declared: DeclaredView {
                    action_fields: after.declared.action_fields,
                    ..before.declared
                },
            })
        },
{
    let states = before.declared.state_fields;
    let actions = before.declared.action_fields;
    let more = texts(fields@);
    assert((states + more).take(states.len() as int) =~= states);
    assert((actions + more).take(actions.len() as int) =~= actions);
}

/// A setting takes the value it is given and no other setting changes; a rate, a headroom or a
/// tolerance that is not positive is not accepted.
pub proof fn law_settings_are_set(
    before: FfiConfigView,
    number: u32,
    tolerance: Single,
    reliable: bool,
    ping_ms: u64,
)
    ensures
        number > 0 ==> before.edited(ConfigEdit::SetFps(number)) == Ok::<FfiConfigView, Seq<char>>(
            FfiConfigView { config: ConfigView { fps: number, ..before.config }, ..before },
        ),
        number > 0 ==> before.edited(ConfigEdit::SetSlack(number)) == Ok::<
            FfiConfigView,
            Seq<char>,
        >(FfiConfigView { config: ConfigView { slack: number, ..before.config }, ..before }),
        0 < tolerance.bits <= 0x7f80_0000 ==> before.edited(ConfigEdit::SetTolerance(tolerance))
            == Ok::<FfiConfigView, Seq<char>>(
            FfiConfigView { config: ConfigView { tolerance, ..before.config }, ..before },
        ),
        before.edited(ConfigEdit::SetStateReliable(reliable)) == Ok::<FfiConfigView, Seq<char>>(
            FfiConfigView {
                config: ConfigView { state_reliable: reliable, ..before.config },
                ..before
            },
        ),
        before.edited(ConfigEdit::SetActionReliable(reliable)) == Ok::<FfiConfigView, Seq<char>>(
            FfiConfigView {
                config: ConfigView { action_reliable: reliable, ..before.config },
                ..before
            },
        ),
        before.edited(ConfigEdit::SetPingMs(ping_ms)) == Ok::<FfiConfigView, Seq<char>>(
            FfiConfigView { config: ConfigView { ping_ms, ..before.config }, ..before },
        ),
        before.edited(ConfigEdit::SetFps(0)) is Err,
        before.edited(ConfigEdit::SetSlack(0)) is Err,
        !(0 < tolerance.bits <= 0x7f80_0000) ==> before.edited(ConfigEdit::SetTolerance(tolerance))
            is Err,
{
    crate::config::law_positive_singles(tolerance);
}

/// The same observation has the same time, the same state and, under every name, the same picture.
pub proof fn law_same_observation(
    a: crate::ffi::Observation,
    b: crate::types::Observation,
    name: Seq<char>,
)
    requires
        same_observation(a, b),
    ensures
        a.timestamp_us == b.timestamp_us,
        a.state@ == b.state@,
        a.frames@.contains_key(name) <==> b.frames@.contains_key(name),
        a.frames@.contains_key(name) ==> {
            &&& a.frames@[name].width == b.frames@[name].width
            &&& a.frames@[name].height == b.frames@[name].height
            &&& a.frames@[name].data@ == b.frames@[name].data@
            &&& a.frames@[name].timestamp_us == b.frames@[name].timestamp_us
        },
{
    assert(a.frames@.dom().contains(name) <==> b.frames@.dom().contains(name));
}

/// A configuration behind a new handle declares nothing and is otherwise the one it was made of.
pub proof fn law_new_configuration_declares_nothing(config: ConfigView)
    ensures
        FfiConfigView::initial(config).config == config,
        FfiConfigView::initial(config).declared.video_tracks.len() == 0,
        FfiConfigView::initial(config).declared.state_fields.len() == 0,
        FfiConfigView::initial(config).declared.action_fields.len() == 0,
{
}

} // verus!
