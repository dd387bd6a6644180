//! What a portal is told before it connects.

use vstd::prelude::*;

use crate::codec::Codec;
use crate::double::Single;
use crate::dtype::DType;
use crate::text::{has_text, same_text};
use crate::types::{texts, Role, SyncConfig};
use crate::window::{search_window, window_us};

verus! {

/// A field of a schema: its name and its type on the wire.
#[derive(Debug, PartialEq)]
pub struct FieldSpec {
    pub name: String,
    pub dtype: DType,
}

/// What a field says.
pub struct FieldView {
    pub name: Seq<char>,
    pub dtype: DType,
}

impl View for FieldSpec {
    type V = FieldView;

    open spec fn view(&self) -> FieldView {
        FieldView { name: self.name@, dtype: self.dtype }
    }
}

impl FieldSpec {
    pub fn new(name: String, dtype: DType) -> (field: FieldSpec)
        ensures
            field@ == (FieldView { name: name@, dtype }),
    {
        FieldSpec { name, dtype }
    }
}

/// What a list of fields says.
pub open spec fn schema_view(schema: Seq<FieldSpec>) -> Seq<FieldView> {
    schema.map_values(|f: FieldSpec| f@)
}

/// The names of a schema, in order.
pub open spec fn schema_names(schema: Seq<FieldView>) -> Seq<Seq<char>> {
    schema.map_values(|f: FieldView| f.name)
}

/// The types of a schema, in order.
pub open spec fn schema_dtypes(schema: Seq<FieldView>) -> Seq<DType> {
    schema.map_values(|f: FieldView| f.dtype)
}

/// A named block of actions of a fixed horizon, sent as a whole.
#[derive(Debug, PartialEq)]
pub struct ChunkSpec {
    pub name: String,
    pub horizon: u32,
    pub fields: Vec<FieldSpec>,
}

/// What a chunk declaration says.
#[verifier::ext_equal]
pub struct ChunkSpecView {
    pub name: Seq<char>,
    pub horizon: u32,
    pub fields: Seq<FieldView>,
}

impl View for ChunkSpec {
    type V = ChunkSpecView;

    open spec fn view(&self) -> ChunkSpecView {
        ChunkSpecView {
            name: self.name@,
            horizon: self.horizon,
            fields: schema_view(self.fields@),
        }
    }
}

impl ChunkSpec {
    pub fn new(name: String, horizon: u32, fields: Vec<FieldSpec>) -> (spec_: ChunkSpec)
        ensures
            spec_@ == (ChunkSpecView { name: name@, horizon, fields: schema_view(fields@) }),
    {
        ChunkSpec { name, horizon, fields }
    }
}

/// A video track whose frames travel as independent images.
#[derive(Debug)]
pub struct FrameVideoSpec {
    pub name: String,
    pub codec: Codec,
    pub quality: u8,
}

/// What a frame-video declaration says.
pub struct FrameVideoView {
    pub name: Seq<char>,
    pub codec: Codec,
    pub quality: u8,
}

impl View for FrameVideoSpec {
    type V = FrameVideoView;

    open spec fn view(&self) -> FrameVideoView {
        FrameVideoView { name: self.name@, codec: self.codec, quality: self.quality }
    }
}

/// The configuration of a portal, built up before it connects.
#[derive(Debug)]
pub struct PortalConfig {
    session: String,
    role: Role,
    video_tracks: Vec<String>,
    frame_video_tracks: Vec<FrameVideoSpec>,
    state_schema: Vec<FieldSpec>,
    action_schema: Vec<FieldSpec>,
    action_chunks: Vec<ChunkSpec>,
    state_reliable: bool,
    action_reliable: bool,
    fps: u32,
    slack: u32,
    tolerance: Single,
    ping_ms: u64,
    reuse_stale_frames: bool,
    shared_key: Option<Vec<u8>>,
}

/// What a configuration says.
#[verifier::ext_equal]
pub struct ConfigView {
    pub session: Seq<char>,
    pub role: Role,
    pub video_tracks: Seq<Seq<char>>,
    pub frame_video_tracks: Seq<FrameVideoView>,
    pub state_schema: Seq<FieldView>,
    pub action_schema: Seq<FieldView>,
    pub action_chunks: Seq<ChunkSpecView>,
    pub state_reliable: bool,
    pub action_reliable: bool,
    pub fps: u32,
    pub slack: u32,
    pub tolerance: Single,
    pub ping_ms: u64,
    pub reuse_stale_frames: bool,
    pub shared_key: Option<Seq<u8>>,
}

/// One and a half, as a single.
pub const DEFAULT_TOLERANCE: u32 = 0x3fc0_0000;

impl ConfigView {
    /// A configuration in which nothing is declared yet.
    pub open spec fn initial(session: Seq<char>, role: Role) -> ConfigView {
        ConfigView {
            session,
            role,
            video_tracks: Seq::empty(),
            frame_video_tracks: Seq::empty(),
            state_schema: Seq::empty(),
            action_schema: Seq::empty(),
            action_chunks: Seq::empty(),
            state_reliable: true,
            action_reliable: true,
            fps: 30,
            slack: 5,
            tolerance: Single { bits: DEFAULT_TOLERANCE },
            ping_ms: 1000,
            reuse_stale_frames: false,
            shared_key: None,
        }
    }

    /// The names of the frame-video tracks, in order.
    pub open spec fn frame_video_names(self) -> Seq<Seq<char>> {
        self.frame_video_tracks.map_values(|f: FrameVideoView| f.name)
    }

    /// The names of the chunks, in order.
    pub open spec fn chunk_names(self) -> Seq<Seq<char>> {
        self.action_chunks.map_values(|c: ChunkSpecView| c.name)
    }

    /// The names of all video tracks, whatever their transport.
    pub open spec fn all_tracks(self) -> Seq<Seq<char>> {
        self.video_tracks + self.frame_video_names()
    }

    /// Every track has a name of its own, whatever its transport.
    pub open spec fn tracks_unique(self) -> bool {
        self.all_tracks().no_duplicates()
    }

    /// Rates, headroom and tolerance are positive, chunk names occur once and horizons are
    /// positive.
    pub open spec fn valid(self) -> bool {
        &&& self.fps > 0
        &&& self.slack > 0
        &&& is_positive(self.tolerance)
        &&& self.chunk_names().no_duplicates()
        &&& forall|i: int|
            0 <= i < self.action_chunks.len() ==> (#[trigger] self.action_chunks[i]).horizon > 0
    }

    /// How the synchronisation buffer is set up. All buffers hold what the headroom allows, and
    /// a state reaches for its frame as far as the tolerance goes at the given rate.
    pub open spec fn sync(self) -> SyncConfig {
        SyncConfig {
            video_buffer_size: self.slack,
            state_buffer_size: self.slack,
            search_range_us: window_us(self.tolerance, self.fps) as u64,
            observation_buffer_size: self.slack,
            reuse_stale_frames: self.reuse_stale_frames,
        }
    }
}

/// A number above zero.
pub open spec fn is_positive(x: Single) -> bool {
    !x.nan() && !x.negative() && x.bits != 0
}

impl View for PortalConfig {
    type V = ConfigView;

    closed spec fn view(&self) -> ConfigView {
        ConfigView {
            session: self.session@,
            role: self.role,
            video_tracks: texts(self.video_tracks@),
            frame_video_tracks: self.frame_video_tracks@.map_values(|f: FrameVideoSpec| f@),
            state_schema: schema_view(self.state_schema@),
            action_schema: schema_view(self.action_schema@),
            action_chunks: self.action_chunks@.map_values(|c: ChunkSpec| c@),
            state_reliable: self.state_reliable,
            action_reliable: self.action_reliable,
            fps: self.fps,
            slack: self.slack,
            tolerance: self.tolerance,
            ping_ms: self.ping_ms,
            reuse_stale_frames: self.reuse_stale_frames,
            shared_key: match self.shared_key {
                Some(key) => Some(key@),
                None => None,
            },
        }
    }
}

impl PortalConfig {
    pub fn new(session: String, role: Role) -> (config: PortalConfig)
        ensures
            config@ == ConfigView::initial(session@, role),
            config@.valid(),
    {
        let config = PortalConfig {
            session,
            role,
            video_tracks: Vec::new(),
            frame_video_tracks: Vec::new(),
            state_schema: Vec::new(),
            action_schema: Vec::new(),
            action_chunks: Vec::new(),
            state_reliable: true,
            action_reliable: true,
            fps: 30,
            slack: 5,
            tolerance: Single { bits: DEFAULT_TOLERANCE },
            ping_ms: 1000,
            reuse_stale_frames: false,
            shared_key: None,
        };
        assert(config@ =~= ConfigView::initial(session@, role));
        config
    }

    /// Declares a video track on the media path.
    pub fn add_video(&mut self, name: String)
        ensures
            final(self)@ == (ConfigView {
                video_tracks: old(self)@.video_tracks.push(name@),
                ..old(self)@
            }),
            old(self)@.tracks_unique() && !old(self)@.all_tracks().contains(name@)
                ==> final(self)@.tracks_unique(),
    {
        self.video_tracks.push(name);
        assert(self@.video_tracks =~= old(self)@.video_tracks.push(name@));
        proof {
            lemma_one_more(
                old(self)@.video_tracks,
                old(self)@.frame_video_names(),
                name@,
            );
        }
    }

    /// Declares a video track whose frames travel as independent images.
    pub fn add_frame_video(&mut self, name: String, codec: Codec, quality: u8)
        ensures
            final(self)@ == (ConfigView {
                frame_video_tracks: old(self)@.frame_video_tracks.push(
                    FrameVideoView { name: name@, codec, quality },
                ),
                ..old(self)@
            }),
            old(self)@.tracks_unique() && !old(self)@.all_tracks().contains(name@)
                ==> final(self)@.tracks_unique(),
    {
        self.frame_video_tracks.push(FrameVideoSpec { name, codec, quality });
        assert(self@.frame_video_tracks =~= old(self)@.frame_video_tracks.push(
            FrameVideoView { name: name@, codec, quality },
        ));
        proof {
            let named = self@.frame_video_names();
            assert(named =~= old(self)@.frame_video_names().push(name@));
            assert(self@.video_tracks + named =~= old(self)@.all_tracks().push(name@));
            lemma_one_more(old(self)@.all_tracks(), Seq::empty(), name@);
            assert(old(self)@.all_tracks() + Seq::<Seq<char>>::empty()
                =~= old(self)@.all_tracks());
            assert(old(self)@.all_tracks().push(name@) + Seq::<Seq<char>>::empty()
                =~= old(self)@.all_tracks().push(name@));
        }
    }

    /// Whether a track of this name was declared, on whichever transport. A track lives on one
    /// transport only, so a name that is taken is not to be declared again.
    pub fn declares_track(&self, name: &str) -> (declared: bool)
        ensures
            declared == self@.all_tracks().contains(name@),
    {
        let names: Vec<String> = self.combined_track_names();
        has_text(&names, name)
    }

    /// Declares more state fields. Their order has to be the same on both ends.
    pub fn add_state_typed(&mut self, schema: Vec<FieldSpec>)
        ensures
            final(self)@ == (ConfigView {
                state_schema: old(self)@.state_schema + schema_view(schema@),
                ..old(self)@
            }),
    {
        let mut schema = schema;
        let ghost added = schema@;
        self.state_schema.append(&mut schema);
        assert(self@.state_schema =~= old(self)@.state_schema + schema_view(added));
    }

    /// Declares more action fields. Their order has to be the same on both ends.
    pub fn add_action_typed(&mut self, schema: Vec<FieldSpec>)
        ensures
            final(self)@ == (ConfigView {
                action_schema: old(self)@.action_schema + schema_view(schema@),
                ..old(self)@
            }),
    {
        let mut schema = schema;
        let ghost added = schema@;
        self.action_schema.append(&mut schema);
        assert(self@.action_schema =~= old(self)@.action_schema + schema_view(added));
    }

    /// Declares a block of actions. Its name is new and its horizon positive.
    pub fn add_action_chunk(&mut self, name: String, horizon: u32, fields: Vec<FieldSpec>)
        requires
            horizon > 0,
            !old(self)@.chunk_names().contains(name@),
        ensures
            final(self)@ == (ConfigView {
                action_chunks: old(self)@.action_chunks.push(
                    ChunkSpecView { name: name@, horizon, fields: schema_view(fields@) },
                ),
                ..old(self)@
            }),
            old(self)@.valid() ==> final(self)@.valid(),
    {
        let ghost added = ChunkSpecView { name: name@, horizon, fields: schema_view(fields@) };
        self.action_chunks.push(ChunkSpec::new(name, horizon, fields));
        proof {
            assert(self@.action_chunks =~= old(self)@.action_chunks.push(added));
            assert(self@.chunk_names() =~= old(self)@.chunk_names().push(name@));
            if old(self)@.valid() {
                let names = old(self)@.chunk_names();
                let after = self@.chunk_names();
                assert(after.no_duplicates()) by {
                    assert forall|i: int, j: int|
                        0 <= i < after.len() && 0 <= j < after.len() && i != j implies after[i]
                        != after[j] by {
                        if i < names.len() && j < names.len() {
                            assert(names[i] != names[j]);
                        } else if i < names.len() {
                            assert(names[i] != name@);
                        } else {
                            assert(names[j] != name@);
                        }
                    }
                }
                assert forall|i: int| 0 <= i < self@.action_chunks.len() implies (
                #[trigger] self@.action_chunks[i]).horizon > 0 by {
                    if i < old(self)@.action_chunks.len() {
                        assert(self@.action_chunks[i] == old(self)@.action_chunks[i]);
                    }
                }
            }
        }
    }

    /// Whether a chunk of this name was declared.
    pub fn has_chunk(&self, name: &str) -> (has: bool)
        ensures
            has == self@.chunk_names().contains(name@),
    {
        let mut i: usize = 0;
        while i < self.action_chunks.len()
            invariant
                i <= self.action_chunks@.len(),
                forall|j: int| 0 <= j < i ==> #[trigger] self@.chunk_names()[j] != name@,
            decreases self.action_chunks@.len() - i,
        {
            assert(self@.chunk_names()[i as int] == self.action_chunks@[i as int].name@);
            if same_text(self.action_chunks[i].name.as_str(), name) {
                return true;
            }
            i += 1;
        }
        assert(self@.chunk_names().len() == self.action_chunks@.len());
        false
    }

    /// Sets the rate of observations.
    pub fn set_fps(&mut self, fps: u32)
        requires
            fps > 0,
        ensures
            final(self)@ == (ConfigView { fps, ..old(self)@ }),
            old(self)@.valid() ==> final(self)@.valid(),
    {
        self.fps = fps;
    }

    /// Sets how far, in ticks, a state may reach for its frame.
    pub fn set_tolerance(&mut self, ticks: Single)
        requires
            is_positive(ticks),
        ensures
            final(self)@ == (ConfigView { tolerance: ticks, ..old(self)@ }),
            old(self)@.valid() ==> final(self)@.valid(),
    {
        self.tolerance = ticks;
    }

    /// Sets the headroom of all buffers, in ticks.
    pub fn set_slack(&mut self, ticks: u32)
        requires
            ticks > 0,
        ensures
            final(self)@ == (ConfigView { slack: ticks, ..old(self)@ }),
            old(self)@.valid() ==> final(self)@.valid(),
    {
        self.slack = ticks;
    }

    pub fn set_state_reliable(&mut self, reliable: bool)
        ensures
            final(self)@ == (ConfigView { state_reliable: reliable, ..old(self)@ }),
    {
        self.state_reliable = reliable;
    }

    pub fn set_action_reliable(&mut self, reliable: bool)
        ensures
            final(self)@ == (ConfigView { action_reliable: reliable, ..old(self)@ }),
    {
        self.action_reliable = reliable;
    }

    /// Sets how often the round trip is measured; zero switches measuring off.
    pub fn set_ping_ms(&mut self, ms: u64)
        ensures
            final(self)@ == (ConfigView { ping_ms: ms, ..old(self)@ }),
    {
        self.ping_ms = ms;
    }

    /// Lets a track fall back to its last emitted frame, so that a state is emitted rather
    /// than dropped.
    pub fn set_reuse_stale_frames(&mut self, enable: bool)
        ensures
            final(self)@ == (ConfigView { reuse_stale_frames: enable, ..old(self)@ }),
    {
        self.reuse_stale_frames = enable;
    }

    /// Encrypts the media end to end with a key that both ends share.
    pub fn set_shared_key(&mut self, key: Vec<u8>)
        ensures
            final(self)@ == (ConfigView { shared_key: Some(key@), ..old(self)@ }),
    {
        self.shared_key = Some(key);
    }

    pub fn shared_key(&self) -> (key: Option<&Vec<u8>>)
        ensures
            match key {
                Some(k) => self@.shared_key == Some(k@),
                None => self@.shared_key is None,
            },
    {
        self.shared_key.as_ref()
    }

    /// A copy of the configuration.
    pub fn copy(&self) -> (config: PortalConfig)
        ensures
            config@ == self@,
    {
        let config = PortalConfig {
            session: self.session.clone(),
            role: self.role,
            video_tracks: copy_texts(&self.video_tracks),
            frame_video_tracks: copy_frame_video(&self.frame_video_tracks),
            state_schema: copy_schema(self.state_schema.as_slice()),
            action_schema: copy_schema(self.action_schema.as_slice()),
            action_chunks: copy_chunks(&self.action_chunks),
            state_reliable: self.state_reliable,
            action_reliable: self.action_reliable,
            fps: self.fps,
            slack: self.slack,
            tolerance: self.tolerance,
            ping_ms: self.ping_ms,
            reuse_stale_frames: self.reuse_stale_frames,
            shared_key: match &self.shared_key {
                Some(key) => {
                    let mut copy: Vec<u8> = Vec::new();
                    copy.extend_from_slice(key.as_slice());
                    assert(copy@ =~= key@);
                    Some(copy)
                },
                None => None,
            },
        };
        assert(config@ =~= self@);
        config
    }

    pub fn session(&self) -> (session: &str)
        ensures
            session@ == self@.session,
    {
        self.session.as_str()
    }

    pub fn role(&self) -> (role: Role)
        ensures
            role == self@.role,
    {
        self.role
    }

    pub fn fps(&self) -> (fps: u32)
        ensures
            fps == self@.fps,
    {
        self.fps
    }

    pub fn tolerance(&self) -> (ticks: Single)
        ensures
            ticks == self@.tolerance,
    {
        self.tolerance
    }

    pub fn ping_ms(&self) -> (ms: u64)
        ensures
            ms == self@.ping_ms,
    {
        self.ping_ms
    }

    /// How often to ping, in milliseconds, if at all.
    pub fn ping_interval_ms(&self) -> (ms: Option<u64>)
        ensures
            ms == if self@.ping_ms == 0 {
                None
            } else {
                Some(self@.ping_ms)
            },
    {
        if self.ping_ms == 0 {
            None
        } else {
            Some(self.ping_ms)
        }
    }

    pub fn state_reliable(&self) -> (reliable: bool)
        ensures
            reliable == self@.state_reliable,
    {
        self.state_reliable
    }

    pub fn action_reliable(&self) -> (reliable: bool)
        ensures
            reliable == self@.action_reliable,
    {
        self.action_reliable
    }

    /// The tracks on the media path.
    pub fn video_tracks(&self) -> (tracks: &[String])
        ensures
            texts(tracks@) == self@.video_tracks,
    {
        self.video_tracks.as_slice()
    }

    /// The tracks of independent images.
    pub fn frame_video_tracks(&self) -> (tracks: &[FrameVideoSpec])
        ensures
            tracks@.map_values(|f: FrameVideoSpec| f@) == self@.frame_video_tracks,
    {
        self.frame_video_tracks.as_slice()
    }

    /// The state field names, in order.
    pub fn state_fields(&self) -> (names: Vec<String>)
        ensures
            texts(names@) == schema_names(self@.state_schema),
    {
        field_names(self.state_schema.as_slice())
    }

    /// The action field names, in order.
    pub fn action_fields(&self) -> (names: Vec<String>)
        ensures
            texts(names@) == schema_names(self@.action_schema),
    {
        field_names(self.action_schema.as_slice())
    }

    pub fn state_schema(&self) -> (schema: &[FieldSpec])
        ensures
            schema_view(schema@) == self@.state_schema,
    {
        self.state_schema.as_slice()
    }

    pub fn action_schema(&self) -> (schema: &[FieldSpec])
        ensures
            schema_view(schema@) == self@.action_schema,
    {
        self.action_schema.as_slice()
    }

    pub fn action_chunks(&self) -> (chunks: &[ChunkSpec])
        ensures
            chunks@.map_values(|c: ChunkSpec| c@) == self@.action_chunks,
    {
        self.action_chunks.as_slice()
    }

    /// How the synchronisation buffer is set up.
    pub fn sync_config(&self) -> (config: SyncConfig)
        ensures
            config == self@.sync(),
    {
        SyncConfig {
            video_buffer_size: self.slack,
            state_buffer_size: self.slack,
            search_range_us: search_window(self.tolerance, self.fps),
            observation_buffer_size: self.slack,
            reuse_stale_frames: self.reuse_stale_frames,
        }
    }

    /// The names of all video tracks, those on the media path first.
    pub fn combined_track_names(&self) -> (names: Vec<String>)
        ensures
            texts(names@) == self@.all_tracks(),
    {
        let mut names: Vec<String> = Vec::new();
        let mut i: usize = 0;
        while i < self.video_tracks.len()
            invariant
                i <= self.video_tracks@.len(),
                names@.len() == i,
                forall|j: int|
                    0 <= j < i ==> (#[trigger] names@[j])@ == self@.video_tracks[j],
            decreases self.video_tracks@.len() - i,
        {
            names.push(self.video_tracks[i].clone());
            i += 1;
        }
        let ghost n = names@.len();
        let mut k: usize = 0;
        while k < self.frame_video_tracks.len()
            invariant
                k <= self.frame_video_tracks@.len(),
                n == self.video_tracks@.len(),
                names@.len() == n + k,
                forall|j: int|
                    0 <= j < n ==> (#[trigger] names@[j])@ == self@.video_tracks[j],
                forall|j: int|
                    n <= j < n + k ==> (#[trigger] names@[j])@ == self@.frame_video_names()[j - n],
            decreases self.frame_video_tracks@.len() - k,
        {
            names.push(self.frame_video_tracks[k].name.clone());
            k += 1;
        }
        assert(texts(names@) =~= self@.all_tracks());
        names
    }
}

/// The names of a schema, in order.
pub fn field_names(schema: &[FieldSpec]) -> (names: Vec<String>)
    ensures
        texts(names@) == schema_names(schema_view(schema@)),
{
    let mut names: Vec<String> = Vec::new();
    let mut i: usize = 0;
    while i < schema.len()
        invariant
            i <= schema@.len(),
            names@.len() == i,
            forall|j: int| 0 <= j < i ==> (#[trigger] names@[j])@ == schema@[j].name@,
        decreases schema@.len() - i,
    {
        names.push(schema[i].name.clone());
        i += 1;
    }
    assert(texts(names@) =~= schema_names(schema_view(schema@)));
    names
}

/// The types of a schema, in order.
pub fn field_dtypes(schema: &[FieldSpec]) -> (dtypes: Vec<DType>)
    ensures
        dtypes@ == schema_dtypes(schema_view(schema@)),
{
    let mut dtypes: Vec<DType> = Vec::new();
    let mut i: usize = 0;
    while i < schema.len()
        invariant
            i <= schema@.len(),
            dtypes@.len() == i,
            forall|j: int| 0 <= j < i ==> #[trigger] dtypes@[j] == schema@[j].dtype,
        decreases schema@.len() - i,
    {
        dtypes.push(schema[i].dtype);
        i += 1;
    }
    assert(dtypes@ =~= schema_dtypes(schema_view(schema@)));
    dtypes
}

/// A copy of a list of names.
pub fn copy_texts(names: &Vec<String>) -> (copy: Vec<String>)
    ensures
        texts(copy@) == texts(names@),
{
    let mut copy: Vec<String> = Vec::new();
    let mut i: usize = 0;
    while i < names.len()
        invariant
            i <= names@.len(),
            copy@.len() == i,
            forall|j: int| 0 <= j < i ==> (#[trigger] copy@[j])@ == names@[j]@,
        decreases names@.len() - i,
    {
        copy.push(names[i].clone());
        i += 1;
    }
    assert(texts(copy@) =~= texts(names@));
    copy
}

/// A copy of a schema.
pub fn copy_schema(schema: &[FieldSpec]) -> (copy: Vec<FieldSpec>)
    ensures
        schema_view(copy@) == schema_view(schema@),
{
    let mut copy: Vec<FieldSpec> = Vec::new();
    let mut i: usize = 0;
    while i < schema.len()
        invariant
            i <= schema@.len(),
            copy@.len() == i,
            forall|j: int| 0 <= j < i ==> (#[trigger] copy@[j])@ == schema@[j]@,
        decreases schema@.len() - i,
    {
        copy.push(FieldSpec::new(schema[i].name.clone(), schema[i].dtype));
        i += 1;
    }
    assert(schema_view(copy@) =~= schema_view(schema@));
    copy
}

fn copy_frame_video(tracks: &Vec<FrameVideoSpec>) -> (copy: Vec<FrameVideoSpec>)
    ensures
        copy@.map_values(|f: FrameVideoSpec| f@) == tracks@.map_values(|f: FrameVideoSpec| f@),
{
    let mut copy: Vec<FrameVideoSpec> = Vec::new();
    let mut i: usize = 0;
    while i < tracks.len()
        invariant
            i <= tracks@.len(),
            copy@.len() == i,
            forall|j: int| 0 <= j < i ==> (#[trigger] copy@[j])@ == tracks@[j]@,
        decreases tracks@.len() - i,
    {
        copy.push(
            FrameVideoSpec {
                name: tracks[i].name.clone(),
                codec: tracks[i].codec,
                quality: tracks[i].quality,
            },
        );
        i += 1;
    }
    assert(copy@.map_values(|f: FrameVideoSpec| f@) =~= tracks@.map_values(
        |f: FrameVideoSpec| f@,
    ));
    copy
}

fn copy_chunks(chunks: &Vec<ChunkSpec>) -> (copy: Vec<ChunkSpec>)
    ensures
        copy@.map_values(|c: ChunkSpec| c@) == chunks@.map_values(|c: ChunkSpec| c@),
{
    let mut copy: Vec<ChunkSpec> = Vec::new();
    let mut i: usize = 0;
    while i < chunks.len()
        invariant
            i <= chunks@.len(),
            copy@.len() == i,
            forall|j: int| 0 <= j < i ==> (#[trigger] copy@[j])@ == chunks@[j]@,
        decreases chunks@.len() - i,
    {
        copy.push(
            ChunkSpec::new(
                chunks[i].name.clone(),
                chunks[i].horizon,
                copy_schema(chunks[i].fields.as_slice()),
            ),
        );
        i += 1;
    }
    assert(copy@.map_values(|c: ChunkSpec| c@) =~= chunks@.map_values(|c: ChunkSpec| c@));
    copy
}

/// A new name between two parts of a list without repeated names leaves none repeated.
proof fn lemma_one_more(first: Seq<Seq<char>>, second: Seq<Seq<char>>, name: Seq<char>)
    ensures
        (first + second).no_duplicates() && !(first + second).contains(name) ==> (first.push(name)
            + second).no_duplicates(),
{
    let before = first + second;
    let after = first.push(name) + second;
    let n = first.len() as int;
    if before.no_duplicates() && !before.contains(name) {
        assert forall|i: int, j: int|
            0 <= i < after.len() && 0 <= j < after.len() && i != j implies after[i] != after[j] by {
            let a = if i < n {
                i
            } else {
                i - 1
            };
            let b = if j < n {
                j
            } else {
                j - 1
            };
            if i != n {
                assert(after[i] == before[a]);
            }
            if j != n {
                assert(after[j] == before[b]);
            }
        }
    }
}

/// A new configuration declares nothing and has the documented settings: reliable rows, thirty
/// frames a second, a headroom of five, a tolerance of one and a half frames, a ping every second,
/// no reuse of stale frames and no key.
pub proof fn law_new_configuration(session: Seq<char>, role: Role)
    ensures
        ({
            let config = ConfigView::initial(session, role);
            &&& config.session == session
            &&& config.role == role
            &&& config.video_tracks.len() == 0
            &&& config.frame_video_tracks.len() == 0
            &&& config.state_schema.len() == 0
            &&& config.action_schema.len() == 0
            &&& config.action_chunks.len() == 0
            &&& config.state_reliable
            &&& config.action_reliable
            &&& config.fps == 30
            &&& config.slack == 5
            &&& config.tolerance.bits == 0x3fc0_0000
            &&& config.ping_ms == 1000
            &&& !config.reuse_stale_frames
            &&& config.shared_key is None
        }),
{
}

/// All tracks are the declared ones of both transports, those on the media path first, each under
/// its own name.
pub proof fn law_all_tracks_are_listed(config: ConfigView, i: int)
    ensures
        config.all_tracks().len() == config.video_tracks.len() + config.frame_video_tracks.len(),
        0 <= i < config.video_tracks.len() ==> config.all_tracks()[i] == config.video_tracks[i],
        0 <= i < config.frame_video_tracks.len() ==> config.all_tracks()[config.video_tracks.len()
            + i] == config.frame_video_tracks[i].name,
        config.chunk_names().len() == config.action_chunks.len(),
        0 <= i < config.action_chunks.len() ==> config.chunk_names()[i]
            == config.action_chunks[i].name,
        config.tracks_unique() <==> forall|a: int, b: int|
            0 <= a < b < config.all_tracks().len() ==> #[trigger] config.all_tracks()[a]
                != #[trigger] config.all_tracks()[b],
{
    let all = config.all_tracks();
    if forall|a: int, b: int| 0 <= a < b < all.len() ==> #[trigger] all[a] != #[trigger] all[b] {
        assert forall|a: int, b: int|
            0 <= a < all.len() && 0 <= b < all.len() && a != b implies all[a] != all[b] by {
            if a < b {
                assert(all[a] != all[b]);
            } else {
                assert(all[b] != all[a]);
            }
        }
    }
}

/// Every buffer holds what the headroom allows, and stale frames are reused as configured.
pub proof fn law_buffers_have_the_headroom(config: ConfigView)
    ensures
        config.sync().video_buffer_size == config.slack,
        config.sync().state_buffer_size == config.slack,
        config.sync().observation_buffer_size == config.slack,
        config.sync().reuse_stale_frames == config.reuse_stale_frames,
        config.sync().search_range_us == window_us(config.tolerance, config.fps) as u64,
{
}

/// A schema says of every field its name and its type, in order.
pub proof fn law_schema_is_in_order(schema: Seq<FieldSpec>, i: int)
    ensures
        schema_view(schema).len() == schema.len(),
        schema_names(schema_view(schema)).len() == schema.len(),
        schema_dtypes(schema_view(schema)).len() == schema.len(),
        0 <= i < schema.len() ==> {
            &&& schema_view(schema)[i].name == schema[i].name@
            &&& schema_view(schema)[i].dtype == schema[i].dtype
            &&& schema_names(schema_view(schema))[i] == schema[i].name@
            &&& schema_dtypes(schema_view(schema))[i] == schema[i].dtype
        },
{
}

/// The singles above zero are those with these bits: more than none, and no more than infinity has.
pub proof fn law_positive_singles(x: Single)
    ensures
        is_positive(x) <==> 0 < x.bits <= 0x7f80_0000,
{
    let bits = x.bits;
    assert((bits / 0x80_0000) % 256 == 255 && bits % 0x80_0000 != 0 && bits < 0x8000_0000
        <==> 0x7f80_0000 < bits < 0x8000_0000) by (bit_vector);
}

/// A configuration is valid exactly where its rate, its headroom and its tolerance are positive, no
/// two chunks share a name and every horizon is positive.
pub proof fn law_validity(config: ConfigView)
    ensures
        config.valid() <==> {
            &&& config.fps > 0
            &&& config.slack > 0
            &&& 0 < config.tolerance.bits <= 0x7f80_0000
            &&& forall|a: int, b: int|
                0 <= a < b < config.action_chunks.len() ==> (
                #[trigger] config.action_chunks[a]).name != (
                #[trigger] config.action_chunks[b]).name
            &&& forall|a: int|
                0 <= a < config.action_chunks.len() ==> (
                #[trigger] config.action_chunks[a]).horizon > 0
        },
{
    law_positive_singles(config.tolerance);
    let names = config.chunk_names();
    if forall|a: int, b: int|
        0 <= a < b < config.action_chunks.len() ==> (#[trigger] config.action_chunks[a]).name != (
        #[trigger] config.action_chunks[b]).name {
        assert forall|a: int, b: int|
            0 <= a < names.len() && 0 <= b < names.len() && a != b implies names[a] != names[b] by {
            if a < b {
                assert(config.action_chunks[a].name != config.action_chunks[b].name);
            } else {
                assert(config.action_chunks[b].name != config.action_chunks[a].name);
            }
        }
    }
    if names.no_duplicates() {
        assert forall|a: int, b: int| 0 <= a < b < config.action_chunks.len() implies (
        #[trigger] config.action_chunks[a]).name != (#[trigger] config.action_chunks[b]).name by {
            assert(names[a] != names[b]);
        }
    }
}

} // verus!
