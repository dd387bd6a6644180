//! A portal: one end of a session, whichever role it has.
//!
//! The portal decides; what it decides on is done outside: joining and leaving the session,
//! publishing tracks, reading streams and running callbacks. Each of these is asked for by a
//! returned value and reported back by a later call.

use std::sync::Arc;

use vstd::prelude::*;

use crate::chunk::{ActionChunk, CHUNK_TOPIC};
use crate::chunk_publisher::{
    add_publishers, chunk_sent, lemma_publisher_is_declared, publishers_for, publishers_view, ChunkPublisher,
    ChunkPublisherView, OutgoingChunk,
};
use crate::config::{
    copy_schema, schema_names, schema_view, ChunkSpec, ChunkSpecView, ConfigView, FieldSpec,
    FrameVideoSpec, FrameVideoView, PortalConfig,
};
use crate::data::{
    handle_data_received, packet_received, publisher_after, route, route_of, row_answer,
    slots_after, DataPublisher, DataSample, DataSlots, DataStream, Fingerprints, Incoming,
    OutgoingPacket, PublisherView, Route, SlotsView, ACTION_TOPIC, STATE_TOPIC,
};
use crate::double::Double;
use crate::error::{ErrorView, PortalError, PortalResult};
use crate::field_map::{blank, blank_map, empty_all, emptied, FieldMap};
use crate::sync_buffer::{SyncBuffer, SyncOutput};
use crate::sync_model::{is_last_named, OutputView, StateView, SyncView};
use crate::portal_laws::{places_match, publishers_match};
use crate::text::same_text;
use crate::typed::TypedValue;
use crate::types::{texts, Observation, ObservationView, Role, VideoFrameData};

verus! {

/// Topic of streams that carry one frame each.
pub const FRAME_VIDEO_TOPIC: &'static str = "portal_frame_video";

/// Keeps the latest of the observations that a synchronisation buffer gives out.
pub struct ObservationSink {
    latest: Option<Observation>,
}

impl View for ObservationSink {
    type V = Option<ObservationView>;

    closed spec fn view(&self) -> Option<ObservationView> {
        match self.latest {
            Some(o) => Some(o@),
            None => None,
        }
    }
}

/// The latest observation once `output` was delivered.
pub open spec fn latest_after(
    before: Option<ObservationView>,
    output: OutputView,
) -> Option<ObservationView> {
    if output.observations.len() > 0 {
        Some(output.observations.last())
    } else {
        before
    }
}

impl ObservationSink {
    pub fn new() -> (sink: ObservationSink)
        ensures
            sink@ is None,
    {
        ObservationSink { latest: None }
    }

    /// Takes an output over once its observations were shown to their callback: the last one
    /// becomes the latest, and what was pushed out or dropped is handed on in one piece.
    pub fn dispatch(&mut self, output: SyncOutput) -> (drops: Vec<FieldMap<Double>>)
        ensures
            final(self)@ == latest_after(old(self)@, output@),
            drops@.map_values(|d: FieldMap<Double>| d@) == output@.told(),
    {
        let mut observations: Vec<Observation> = output.observations;
        let ghost all = observations@;
        if observations.len() > 0 {
            let last: Option<Observation> = observations.pop();
            assert(output@.observations.last() == all.last()@);
            self.latest = last;
        }
        let mut told: Vec<FieldMap<Double>> = output.evicted;
        let mut drops: Vec<FieldMap<Double>> = output.drops;
        told.append(&mut drops);
        assert(told@.map_values(|d: FieldMap<Double>| d@) =~= output@.told());
        told
    }

    pub fn get(&self) -> (latest: Option<&Observation>)
        ensures
            match latest {
                Some(o) => self@ == Some(o@),
                None => self@ is None,
            },
    {
        self.latest.as_ref()
    }

    pub fn clear(&mut self)
        ensures
            final(self)@ is None,
    {
        self.latest = None;
    }
}

/// One end of a session.
pub struct Portal {
    config: PortalConfig,
    all_track_names: Vec<String>,
    connected: bool,
    participant: bool,
    video_receivers: FieldMap<()>,
    video_publishers: FieldMap<()>,
    frame_video_publishers: FieldMap<()>,
    chunk_publishers: FieldMap<ChunkPublisher>,
    state_publisher: Option<DataPublisher>,
    action_publisher: Option<DataPublisher>,
    sync_buffer: Option<SyncBuffer>,
    obs_sink: ObservationSink,
    action: DataSlots,
    state: DataSlots,
    chunk_slots: FieldMap<Option<ActionChunk>>,
    video_slots: FieldMap<Option<Arc<VideoFrameData>>>,
    peer_identity: Option<String>,
    rpc_handlers: FieldMap<u64>,
}

/// What a portal knows.
#[verifier::ext_equal]
pub struct PortalView {
    pub config: ConfigView,
    /// The session was joined and everything was set up.
    pub connected: bool,
    /// The session was joined.
    pub participant: bool,
    /// Tracks that frames are read from.
    pub receivers: Set<Seq<char>>,
    /// Tracks on the media path that frames can be sent on.
    pub video_publishers: Set<Seq<char>>,
    /// Tracks of independent images that frames can be sent on.
    pub frame_video_publishers: Set<Seq<char>>,
    /// Chunks that can be sent.
    pub chunk_publishers: Map<Seq<char>, ChunkPublisherView>,
    pub state_publisher: Option<PublisherView>,
    pub action_publisher: Option<PublisherView>,
    pub sync_buffer: Option<SyncView>,
    /// The latest observation.
    pub observation: Option<ObservationView>,
    pub action: SlotsView,
    pub state: SlotsView,
    /// The latest chunk of each name.
    pub chunks: Map<Seq<char>, Option<ActionChunk>>,
    /// The latest frame of each track.
    pub frames: Map<Seq<char>, Option<Arc<VideoFrameData>>>,
    /// The participant at the other end, once it was heard of.
    pub peer: Option<Seq<char>>,
    /// The registered methods with the numbers of their handlers.
    pub handlers: Map<Seq<char>, u64>,
}

impl View for Portal {
    type V = PortalView;

    closed spec fn view(&self) -> PortalView {
        PortalView {
            config: self.config@,
            connected: self.connected,
            participant: self.participant,
            receivers: self.video_receivers@.dom(),
            video_publishers: self.video_publishers@.dom(),
            frame_video_publishers: self.frame_video_publishers@.dom(),
            chunk_publishers: publishers_view(self.chunk_publishers@),
            state_publisher: publisher_view(self.state_publisher),
            action_publisher: publisher_view(self.action_publisher),
            sync_buffer: match self.sync_buffer {
                Some(sb) => Some(sb@),
                None => None,
            },
            observation: self.obs_sink@,
            action: self.action@,
            state: self.state@,
            chunks: self.chunk_slots@,
            frames: self.video_slots@,
            peer: match self.peer_identity {
                Some(id) => Some(id@),
                None => None,
            },
            handlers: self.rpc_handlers@,
        }
    }
}

/// What a publisher knows, if there is one.
pub open spec fn publisher_view(publisher: Option<DataPublisher>) -> Option<PublisherView> {
    match publisher {
        Some(p) => Some(p@),
        None => None,
    }
}

impl PortalView {
    /// A portal that was never connected.
    pub open spec fn initial(config: ConfigView) -> PortalView {
        PortalView {
            config,
            connected: false,
            participant: false,
            receivers: Set::empty(),
            video_publishers: Set::empty(),
            frame_video_publishers: Set::empty(),
            chunk_publishers: Map::empty(),
            state_publisher: None,
            action_publisher: None,
            sync_buffer: None,
            observation: None,
            action: SlotsView { latest: None, warned_mismatches: Seq::empty() },
            state: SlotsView { latest: None, warned_mismatches: Seq::empty() },
            chunks: blank(config.chunk_names()),
            frames: blank(config.all_tracks()),
            peer: None,
            handlers: Map::empty(),
        }
    }

    /// All latest values are forgotten.
    pub open spec fn slots_cleared(self) -> PortalView {
        PortalView {
            observation: None,
            action: SlotsView { latest: None, ..self.action },
            state: SlotsView { latest: None, ..self.state },
            chunks: emptied(self.chunks),
            frames: emptied(self.frames),
            ..self
        }
    }

    /// After the connection came back: what was received before is stale.
    pub open spec fn reconnected(self) -> PortalView {
        PortalView {
            sync_buffer: match self.sync_buffer {
                Some(sb) => Some(sb.cleared()),
                None => None,
            },
            peer: None,
            ..self.slots_cleared()
        }
    }

    /// After the session was left: nothing runs, nothing is known of the other end, and the
    /// registered methods stay.
    pub open spec fn disconnected(self) -> PortalView {
        PortalView {
            connected: false,
            participant: false,
            receivers: Set::empty(),
            video_publishers: Set::empty(),
            frame_video_publishers: Set::empty(),
            chunk_publishers: Map::empty(),
            state_publisher: None,
            action_publisher: None,
            sync_buffer: None,
            peer: None,
            ..self.slots_cleared()
        }
    }

    /// The first participant heard of is the other end.
    pub open spec fn latched(self, identity: Seq<char>) -> PortalView {
        PortalView {
            peer: match self.peer {
                Some(id) => Some(id),
                None => Some(identity),
            },
            ..self
        }
    }

    /// A participant left.
    pub open spec fn departed(self, identity: Seq<char>) -> PortalView {
        PortalView {
            peer: if self.peer == Some(identity) {
                None
            } else {
                self.peer
            },
            ..self
        }
    }

    /// A robot set up for sending, once its tracks on the media path are published.
    pub open spec fn robot_ready(self, fingerprint: u32) -> PortalView {
        PortalView {
            frame_video_publishers: self.frame_video_publishers.union(
                self.config.frame_video_names().to_set(),
            ),
            state_publisher: if self.config.state_schema.len() > 0 {
                Some(
                    PublisherView::initial(
                        self.config.state_schema,
                        fingerprint,
                        STATE_TOPIC@,
                        self.config.state_reliable,
                    ),
                )
            } else {
                self.state_publisher
            },
            ..self
        }
    }

    /// An operator set up for sending and for putting observations together.
    pub open spec fn operator_ready(self, fingerprint: u32, sync_buffer: SyncView) -> PortalView {
        PortalView {
            sync_buffer: Some(sync_buffer),
            action_publisher: if self.config.action_schema.len() > 0 {
                Some(
                    PublisherView::initial(
                        self.config.action_schema,
                        fingerprint,
                        ACTION_TOPIC@,
                        self.config.action_reliable,
                    ),
                )
            } else {
                self.action_publisher
            },
            chunk_publishers: self.chunk_publishers.union_prefer_right(
                publishers_for(self.config.action_chunks),
            ),
            ..self
        }
    }

    /// An empty buffer for all tracks of the configuration.
    pub open spec fn is_new_buffer(self, sb: SyncView) -> bool {
        &&& sb.names == self.config.all_tracks()
        &&& sb.fields == schema_names(self.config.state_schema)
        &&& sb.config == self.config.sync()
        &&& sb.tracks.len() == self.config.all_tracks().len()
        &&& sb == sb.cleared()
    }

    /// Who a call without a destination goes to: the other end once it is known, else the one
    /// other participant.
    pub open spec fn resolved_peer(self, remotes: Seq<Seq<char>>) -> Result<
        Seq<char>,
        ErrorView,
    > {
        match self.peer {
            Some(id) => Ok(id),
            None => if !self.connected {
                Err(ErrorView::NotConnected)
            } else if remotes.len() == 0 {
                Err(ErrorView::NoPeer)
            } else if remotes.len() == 1 {
                Ok(remotes[0])
            } else {
                Err(ErrorView::AmbiguousPeer)
            },
        }
    }

    /// Who a call goes to.
    pub open spec fn rpc_target(
        self,
        destination: Option<Seq<char>>,
        remotes: Seq<Seq<char>>,
    ) -> Result<Seq<char>, ErrorView> {
        let target = match destination {
            Some(id) => Ok(id),
            None => self.resolved_peer(remotes),
        };
        match target {
            Err(e) => Err(e),
            Ok(id) => if self.participant {
                Ok(id)
            } else {
                Err(ErrorView::NotConnected)
            },
        }
    }

    /// Why a frame cannot be sent on a track that nothing publishes: an operator does not
    /// send, and no other track is known.
    pub open spec fn video_refusal(self, track: Seq<char>) -> ErrorView {
        if self.config.role != Role::Robot && self.config.all_tracks().contains(track) {
            ErrorView::WrongRole(self.config.role)
        } else {
            ErrorView::UnknownVideoTrack(track)
        }
    }

    /// Why a chunk cannot be sent that nothing publishes.
    pub open spec fn chunk_refusal(self, name: Seq<char>) -> ErrorView {
        if self.config.role != Role::Operator {
            ErrorView::WrongRole(Role::Robot)
        } else if !self.chunks.contains_key(name) {
            ErrorView::UnknownChunk(name)
        } else {
            ErrorView::NotConnected
        }
    }
}

/// How a frame is sent.
#[derive(Debug, Clone, Copy, PartialEq, Eq, Structural)]
pub enum VideoRoute {
    /// On the media path.
    Media,
    /// As an image of its own.
    Frame,
}

/// A result by what it says.
pub open spec fn result_view(r: PortalResult<String>) -> Result<Seq<char>, ErrorView> {
    match r {
        Ok(text) => Ok(text@),
        Err(e) => Err(e@),
    }
}

impl Portal {
    /// The parts of the portal are well-formed, there is a place for the latest chunk of every
    /// declared name and the latest frame of every declared track, and only what was declared is
    /// published.
    pub closed spec fn wf(&self) -> bool {
        &&& self.all_track_names_match()
        &&& self.state_publisher matches Some(p) ==> p.wf()
        &&& self.action_publisher matches Some(p) ==> p.wf()
        &&& self.sync_buffer matches Some(sb) ==> sb.wf()
        &&& forall|k: Seq<char>| #[trigger]
            self.chunk_slots@.contains_key(k) <==> self.config@.chunk_names().contains(k)
        &&& forall|k: Seq<char>| #[trigger]
            self.video_slots@.contains_key(k) <==> self.config@.all_tracks().contains(k)
        &&& forall|k: Seq<char>| #[trigger]
            self.chunk_publishers@.contains_key(k) ==> self.config@.chunk_names().contains(k)
        &&& forall|k: Seq<char>| #[trigger]
            self.video_publishers@.contains_key(k) ==> self.config@.video_tracks.contains(k)
        &&& forall|k: Seq<char>| #[trigger]
            self.frame_video_publishers@.contains_key(k)
                ==> self.config@.frame_video_names().contains(k)
    }

    /// A portal has its places and publishes only what was declared, at all times.
    pub proof fn law_declarations_are_kept(&self)
        requires
            self.wf(),
        ensures
            places_match(self@),
            publishers_match(self@),
    {
    }

    spec fn all_track_names_match(&self) -> bool {
        texts(self.all_track_names@) == self.config@.all_tracks()
    }

    pub fn new(config: PortalConfig) -> (portal: Portal)
        ensures
            portal.wf(),
            portal@ == PortalView::initial(config@),
    {
        let all_track_names: Vec<String> = config.combined_track_names();
        let chunk_names: Vec<String> = chunk_names_of(config.action_chunks());
        let video_slots: FieldMap<Option<Arc<VideoFrameData>>> = blank_map(&all_track_names);
        let portal = Portal {
            all_track_names,
            connected: false,
            participant: false,
            video_receivers: FieldMap::new(),
            video_publishers: FieldMap::new(),
            frame_video_publishers: FieldMap::new(),
            chunk_publishers: FieldMap::new(),
            state_publisher: None,
            action_publisher: None,
            sync_buffer: None,
            obs_sink: ObservationSink::new(),
            action: DataSlots::new(),
            state: DataSlots::new(),
            chunk_slots: blank_map(&chunk_names),
            video_slots,
            peer_identity: None,
            rpc_handlers: FieldMap::new(),
            config,
        };
        proof {
            assert(config@.action_chunks.map_values(|c: ChunkSpecView| c.name)
                == config@.chunk_names());
            assert(portal@ =~= PortalView::initial(config@));
        }
        portal
    }
}

/// The names of chunk declarations, in order.
fn chunk_names_of(chunks: &[ChunkSpec]) -> (names: Vec<String>)
    ensures
        texts(names@) == chunks@.map_values(|c: ChunkSpec| c@).map_values(
            |c: ChunkSpecView| c.name,
        ),
{
    let mut names: Vec<String> = Vec::new();
    let mut i: usize = 0;
    while i < chunks.len()
        invariant
            i <= chunks@.len(),
            names@.len() == i,
            forall|j: int| 0 <= j < i ==> (#[trigger] names@[j])@ == chunks@[j].name@,
        decreases chunks@.len() - i,
    {
        names.push(chunks[i].name.clone());
        i += 1;
    }
    assert(texts(names@) =~= chunks@.map_values(|c: ChunkSpec| c@).map_values(
        |c: ChunkSpecView| c.name,
    ));
    names
}

/// Adds every name of a list.
fn insert_all(set: &mut FieldMap<()>, names: &Vec<String>)
    ensures
        final(set)@.dom() == old(set)@.dom().union(texts(names@).to_set()),
{
    let ghost all = texts(names@);
    let mut i: usize = 0;
    assert(set@.dom() =~= old(set)@.dom().union(all.take(0).to_set()));
    while i < names.len()
        invariant
            i <= names@.len(),
            all == texts(names@),
            set@.dom() == old(set)@.dom().union(all.take(i as int).to_set()),
        decreases names@.len() - i,
    {
        set.insert(names[i].clone(), ());
        proof {
            assert(all.take(i + 1) =~= all.take(i as int).push(all[i as int]));
            lemma_push_to_set(all.take(i as int), all[i as int]);
            assert(set@.dom() =~= old(set)@.dom().union(all.take(i + 1).to_set()));
        }
        i += 1;
    }
    assert(all.take(i as int) =~= all);
}

proof fn lemma_push_to_set(s: Seq<Seq<char>>, x: Seq<char>)
    ensures
        s.push(x).to_set() == s.to_set().insert(x),
{
    assert forall|y: Seq<char>| s.push(x).to_set().contains(y) <==> s.to_set().insert(
        x,
    ).contains(y) by {
        if s.contains(y) {
            let i = choose|i: int| 0 <= i < s.len() && s[i] == y;
            assert(s.push(x)[i] == y);
        }
        if y == x {
            assert(s.push(x)[s.len() as int] == y);
        }
        if s.push(x).contains(y) {
            let i = choose|i: int| 0 <= i < s.push(x).len() && s.push(x)[i] == y;
            if i < s.len() {
                assert(s[i] == y);
            }
        }
    }
    assert(s.push(x).to_set() =~= s.to_set().insert(x));
}

/// The names of frame-video declarations, in order.
fn frame_video_names_of(tracks: &[FrameVideoSpec]) -> (names: Vec<String>)
    ensures
        texts(names@) == tracks@.map_values(|f: FrameVideoSpec| f@).map_values(
            |f: FrameVideoView| f.name,
        ),
{
    let mut names: Vec<String> = Vec::new();
    let mut i: usize = 0;
    while i < tracks.len()
        invariant
            i <= tracks@.len(),
            names@.len() == i,
            forall|j: int| 0 <= j < i ==> (#[trigger] names@[j])@ == tracks@[j].name@,
        decreases tracks@.len() - i,
    {
        names.push(tracks[i].name.clone());
        i += 1;
    }
    assert(texts(names@) =~= tracks@.map_values(|f: FrameVideoSpec| f@).map_values(
        |f: FrameVideoView| f.name,
    ));
    names
}

impl Portal {
    /// Whether the portal may connect now.
    pub fn begin_connect(&self) -> (r: PortalResult<()>)
        ensures
            match r {
                Ok(_) => !self@.connected,
                Err(e) => self@.connected && e@ == ErrorView::AlreadyConnected,
            },
    {
        if self.connected {
            return Err(PortalError::AlreadyConnected);
        }
        Ok(())
    }

    /// The session was joined. Returned are the registered methods with the numbers of their
    /// handlers, which are to be installed now.
    pub fn room_joined(&mut self) -> (methods: Vec<(String, u64)>)
        requires
            old(self).wf(),
        ensures
            final(self).wf(),
            final(self)@ == (PortalView { participant: true, ..old(self)@ }),
            lists_handlers(methods@, old(self)@.handlers),
    {
        self.participant = true;
        self.apply_rpc_handlers()
    }

    /// The registered methods with the numbers of their handlers.
    pub fn apply_rpc_handlers(&self) -> (methods: Vec<(String, u64)>)
        ensures
            lists_handlers(methods@, self@.handlers),
    {
        let mut methods: Vec<(String, u64)> = Vec::new();
        let n: usize = self.rpc_handlers.len();
        let ghost pairs = self.rpc_handlers.pairs();
        let mut i: usize = 0;
        while i < n
            invariant
                n == self.rpc_handlers.pairs().len(),
                pairs == self.rpc_handlers.pairs(),
                i <= n,
                methods@.len() == i,
                forall|j: int|
                    0 <= j < i ==> (#[trigger] methods@[j]).0@ == pairs[j].0 && methods@[j].1
                        == pairs[j].1,
            decreases n - i,
        {
            methods.push((self.rpc_handlers.name_at(i).to_owned(), *self.rpc_handlers.value_at(i)));
            i += 1;
        }
        proof {
            let named = methods@.map_values(|m: (String, u64)| (m.0@, m.1));
            assert(named =~= pairs);
        }
        methods
    }

    /// The next track on the media path that a robot has to publish, after the first `done`.
    pub fn next_video_track(&self, done: usize) -> (track: Option<&str>)
        ensures
            match track {
                Some(name) => done < self@.config.video_tracks.len() && name@
                    == self@.config.video_tracks[done as int],
                None => done >= self@.config.video_tracks.len(),
            },
    {
        let tracks = self.config.video_tracks();
        if done < tracks.len() {
            assert(texts(tracks@)[done as int] == tracks@[done as int]@);
            Some(tracks[done].as_str())
        } else {
            None
        }
    }

    /// Track number `done` was published, or could not be: then the tracks published before
    /// it are given up too.
    pub fn video_published(&mut self, done: usize, result: PortalResult<()>) -> (r: PortalResult<
        (),
    >)
        requires
            old(self).wf(),
            done < old(self)@.config.video_tracks.len(),
        ensures
            final(self).wf(),
            match result {
                Ok(_) => r is Ok && final(self)@ == (PortalView {
                    video_publishers: old(self)@.video_publishers.insert(
                        old(self)@.config.video_tracks[done as int],
                    ),
                    ..old(self)@
                }),
                Err(e) => r == Err::<(), PortalError>(e) && final(self)@ == (PortalView {
                    video_publishers: Set::empty(),
                    ..old(self)@
                }),
            },
    {
        match result {
            Ok(_) => {
                let tracks = self.config.video_tracks();
                assert(texts(tracks@)[done as int] == tracks@[done as int]@);
                let name: String = tracks[done].clone();
                self.video_publishers.insert(name, ());
                assert(self@.video_publishers =~= old(self)@.video_publishers.insert(
                    old(self)@.config.video_tracks[done as int],
                ));
                Ok(())
            },
            Err(e) => {
                self.video_publishers = FieldMap::new();
                assert(self@.video_publishers =~= Set::empty());
                Err(e)
            },
        }
    }

    /// Sets a robot up for sending once its tracks on the media path are published. Its states
    /// carry the fingerprint of their schema.
    pub fn setup_robot(&mut self, fingerprint: u32)
        requires
            old(self).wf(),
        ensures
            final(self).wf(),
            final(self)@ == old(self)@.robot_ready(fingerprint),
    {
        let names: Vec<String> = frame_video_names_of(self.config.frame_video_tracks());
        insert_all(&mut self.frame_video_publishers, &names);
        if self.config.state_schema().len() > 0 {
            let schema: Vec<FieldSpec> = copy_schema(self.config.state_schema());
            self.state_publisher = Some(
                DataPublisher::new(
                    schema,
                    fingerprint,
                    STATE_TOPIC,
                    self.config.state_reliable(),
                ),
            );
        }
        assert(self@ =~= old(self)@.robot_ready(fingerprint));
    }

    /// Sets an operator up for sending and for putting observations together. Its actions carry
    /// the fingerprint of their schema.
    pub fn setup_operator(&mut self, fingerprint: u32)
        requires
            old(self).wf(),
        ensures
            final(self).wf(),
            final(self)@.sync_buffer is Some,
            old(self)@.is_new_buffer(final(self)@.sync_buffer->0),
            final(self)@ == old(self)@.operator_ready(fingerprint, final(self)@.sync_buffer->0),
    {
        let sync_buffer = SyncBuffer::new(
            self.all_track_names.as_slice(),
            self.config.state_fields(),
            self.config.sync_config(),
        );
        self.sync_buffer = Some(sync_buffer);
        if self.config.action_schema().len() > 0 {
            let schema: Vec<FieldSpec> = copy_schema(self.config.action_schema());
            self.action_publisher = Some(
                DataPublisher::new(
                    schema,
                    fingerprint,
                    ACTION_TOPIC,
                    self.config.action_reliable(),
                ),
            );
        }
        let ghost earlier = self.chunk_publishers@;
        add_publishers(&mut self.chunk_publishers, self.config.action_chunks());
        proof {
            let chunks = self.config@.action_chunks;
            assert forall|k: Seq<char>| #[trigger]
                self.chunk_publishers@.contains_key(
                    k,
                ) implies self.config@.chunk_names().contains(k) by {
                assert(publishers_view(self.chunk_publishers@).contains_key(k));
                if !publishers_view(earlier).contains_key(k) {
                    assert(publishers_for(chunks).contains_key(k));
                    lemma_publisher_is_declared(chunks, k);
                    let i = choose|i: int| 0 <= i < chunks.len() && chunks[i].name == k;
                    assert(self.config@.chunk_names()[i] == k);
                }
            }
        }
        assert(self@ =~= old(self)@.operator_ready(fingerprint, self@.sync_buffer->0));
    }

    /// Everything is set up.
    pub fn finish_connect(&mut self)
        requires
            old(self).wf(),
        ensures
            final(self).wf(),
            final(self)@ == (PortalView { connected: true, ..old(self)@ }),
    {
        self.connected = true;
    }

    /// Starts leaving the session. Returned is whether there is one to leave.
    pub fn begin_disconnect(&mut self) -> (close: bool)
        requires
            old(self).wf(),
        ensures
            final(self).wf(),
            close == old(self)@.connected,
            final(self)@ == (PortalView { connected: false, ..old(self)@ }),
    {
        let close: bool = self.connected;
        self.connected = false;
        close
    }

    /// Cleans up after the session was left, whether or not leaving it went well.
    pub fn finish_disconnect(&mut self, close: PortalResult<()>) -> (r: PortalResult<()>)
        requires
            old(self).wf(),
        ensures
            final(self).wf(),
            final(self)@ == old(self)@.disconnected(),
            r == close,
    {
        self.connected = false;
        self.participant = false;
        self.peer_identity = None;
        self.video_receivers = FieldMap::new();
        self.video_publishers = FieldMap::new();
        self.frame_video_publishers = FieldMap::new();
        self.state_publisher = None;
        self.action_publisher = None;
        self.chunk_publishers = FieldMap::new();
        self.sync_buffer = None;
        self.clear_slots();
        assert(self@ =~= old(self)@.disconnected());
        close
    }

    fn clear_slots(&mut self)
        requires
            old(self).wf(),
        ensures
            final(self).wf(),
            final(self)@ == old(self)@.slots_cleared(),
    {
        self.obs_sink.clear();
        self.action.clear();
        self.state.clear();
        self.chunk_slots = empty_all(&self.chunk_slots);
        self.video_slots = empty_all(&self.video_slots);
        assert(self@ =~= old(self)@.slots_cleared());
    }
}

/// `methods` lists every registered method once, with the number of its handler.
pub open spec fn lists_handlers(methods: Seq<(String, u64)>, handlers: Map<Seq<char>, u64>) -> bool {
    let named = methods.map_values(|m: (String, u64)| (m.0@, m.1));
    crate::field_map::distinct_names(named) && crate::field_map::collect(named) == handlers
}

/// A stream that a portal reads.
#[derive(Debug, Clone, Copy, PartialEq, Eq, Structural)]
pub enum StreamKind {
    /// A chunk of actions.
    Chunk,
    /// One frame.
    Frame,
}

/// Something that happened in the session.
pub enum PortalEvent {
    /// A track of a participant can be received.
    TrackSubscribed { video: bool, track_name: String, participant: String },
    /// A packet arrived, with the fingerprints of the two schemas if it carries one.
    DataReceived {
        payload: Vec<u8>,
        topic: Option<String>,
        participant: Option<String>,
        fingerprints: Option<Fingerprints>,
    },
    /// A stream can be taken.
    ByteStreamOpened { topic: String },
    /// A stream that was asked for was taken.
    StreamTaken { kind: StreamKind, participant: String },
    ParticipantDisconnected { identity: String },
    Reconnected,
    /// Anything else.
    Other,
}

/// What is to be done about an event.
pub enum PortalAction {
    Nothing,
    /// Read the frames of this track.
    Receive { track_name: String },
    /// Show a packet to its callback and deliver it.
    Deliver(Incoming),
    /// Take the stream, if it can still be had.
    Take(StreamKind),
    /// Read the stream.
    Read(StreamKind),
}

impl PortalView {
    /// The stream that a topic stands for: robots read chunks, operators read frames once they
    /// have declared a track for them.
    pub open spec fn stream_for(self, topic: Seq<char>) -> Option<StreamKind> {
        if self.config.role == Role::Robot && topic == CHUNK_TOPIC@ {
            Some(StreamKind::Chunk)
        } else if self.config.role == Role::Operator && topic == FRAME_VIDEO_TOPIC@
            && self.config.frame_video_tracks.len() > 0 {
            Some(StreamKind::Frame)
        } else {
            None
        }
    }

    /// A video track was subscribed to that the operator declared.
    pub open spec fn wants_track(self, video: bool, track_name: Seq<char>) -> bool {
        self.config.role == Role::Operator && video && self.config.video_tracks.contains(
            track_name,
        )
    }

    /// The portal after an event.
    pub open spec fn after_event(self, event: PortalEvent) -> PortalView {
        match event {
            PortalEvent::TrackSubscribed { video, track_name, participant } => if self.wants_track(
                video,
                track_name@,
            ) {
                let known = self.latched(participant@);
                if self.sync_buffer is Some {
                    PortalView { receivers: self.receivers.insert(track_name@), ..known }
                } else {
                    known
                }
            } else {
                self
            },
            PortalEvent::DataReceived { payload, topic, participant, fingerprints } => match topic {
                Some(topic) => {
                    let route = route_of(self.config.role, topic@);
                    let known = match participant {
                        Some(id) if route != Route::Ignored => self.latched(id@),
                        _ => self,
                    };
                    match route {
                        Route::Stream(DataStream::Action) => PortalView {
                            action: slots_after(self.action, fingerprints),
                            ..known
                        },
                        Route::Stream(DataStream::State) => PortalView {
                            state: slots_after(self.state, fingerprints),
                            ..known
                        },
                        _ => known,
                    }
                },
                None => self,
            },
            PortalEvent::StreamTaken { kind, participant } => if kind == StreamKind::Chunk
                || self.sync_buffer is Some {
                self.latched(participant@)
            } else {
                self
            },
            PortalEvent::ParticipantDisconnected { identity } => self.departed(identity@),
            PortalEvent::Reconnected => self.reconnected(),
            _ => self,
        }
    }

    /// What is to be done about an event.
    pub open spec fn action_for(self, event: PortalEvent, action: PortalAction) -> bool {
        match event {
            PortalEvent::TrackSubscribed { video, track_name, participant } => if self.wants_track(
                video,
                track_name@,
            ) && self.sync_buffer is Some {
                action matches PortalAction::Receive { track_name: name } && name@ == track_name@
            } else {
                action is Nothing
            },
            PortalEvent::DataReceived { payload, topic, participant, fingerprints } => match topic {
                Some(topic) => {
                    &&& action matches PortalAction::Deliver(incoming)
                    &&& match route_of(self.config.role, topic@) {
                        Route::Rtt => incoming is Rtt,
                        Route::Ignored => incoming is Ignored,
                        Route::Stream(DataStream::Action) => packet_received(
                            DataStream::Action,
                            self.config.action_schema,
                            payload@,
                            topic@,
                            fingerprints,
                            self.action,
                            incoming,
                        ),
                        Route::Stream(DataStream::State) => packet_received(
                            DataStream::State,
                            self.config.state_schema,
                            payload@,
                            topic@,
                            fingerprints,
                            self.state,
                            incoming,
                        ),
                    }
                },
                None => action is Nothing,
            },
            PortalEvent::ByteStreamOpened { topic } => match self.stream_for(topic@) {
                Some(kind) => action == PortalAction::Take(kind),
                None => action is Nothing,
            },
            PortalEvent::StreamTaken { kind, participant } => if kind == StreamKind::Chunk
                || self.sync_buffer is Some {
                action == PortalAction::Read(kind)
            } else {
                action is Nothing
            },
            _ => action is Nothing,
        }
    }
}

impl Portal {
    /// Takes the first participant heard of for the other end.
    fn latch_peer(&mut self, identity: &str)
        requires
            old(self).wf(),
        ensures
            final(self).wf(),
            final(self)@ == old(self)@.latched(identity@),
    {
        if self.peer_identity.is_none() {
            self.peer_identity = Some(identity.to_owned());
        }
    }

    fn declares_video(&self, track_name: &str) -> (declared: bool)
        ensures
            declared == self@.config.video_tracks.contains(track_name@),
    {
        let tracks = self.config.video_tracks();
        let mut i: usize = 0;
        while i < tracks.len()
            invariant
                i <= tracks@.len(),
                texts(tracks@) == self@.config.video_tracks,
                forall|j: int|
                    0 <= j < i ==> #[trigger] self@.config.video_tracks[j] != track_name@,
            decreases tracks@.len() - i,
        {
            assert(texts(tracks@)[i as int] == tracks@[i as int]@);
            if same_text(tracks[i].as_str(), track_name) {
                return true;
            }
            i += 1;
        }
        false
    }

    /// Takes note of an event and says what is to be done about it.
    pub fn handle_room_event(&mut self, event: PortalEvent) -> (action: PortalAction)
        requires
            old(self).wf(),
        ensures
            final(self).wf(),
            final(self)@ == old(self)@.after_event(event),
            old(self)@.action_for(event, action),
    {
        match event {
            PortalEvent::TrackSubscribed { video, track_name, participant } => {
                if self.config.role() != Role::Operator || !video || !self.declares_video(
                    track_name.as_str(),
                ) {
                    return PortalAction::Nothing;
                }
                self.latch_peer(participant.as_str());
                if self.sync_buffer.is_none() {
                    return PortalAction::Nothing;
                }
                self.video_receivers.insert(track_name.clone(), ());
                assert(self@.receivers =~= old(self)@.receivers.insert(track_name@));
                PortalAction::Receive { track_name }
            },
            PortalEvent::DataReceived { payload, topic, participant, fingerprints } => {
                let topic: String = match topic {
                    Some(topic) => topic,
                    None => {
                        return PortalAction::Nothing;
                    },
                };
                if let Some(id) = participant {
                    if route(self.config.role(), topic.as_str()) != Route::Ignored {
                        self.latch_peer(id.as_str());
                    }
                }
                let incoming: Incoming = handle_data_received(
                    payload.as_slice(),
                    topic.as_str(),
                    fingerprints,
                    self.config.role(),
                    self.config.action_schema(),
                    self.config.state_schema(),
                    &mut self.action,
                    &mut self.state,
                );
                PortalAction::Deliver(incoming)
            },
            PortalEvent::ByteStreamOpened { topic } => match self.config.role() {
                Role::Robot => if same_text(topic.as_str(), CHUNK_TOPIC) {
                    PortalAction::Take(StreamKind::Chunk)
                } else {
                    PortalAction::Nothing
                },
                Role::Operator => if same_text(topic.as_str(), FRAME_VIDEO_TOPIC)
                    && self.config.frame_video_tracks().len() > 0 {
                    PortalAction::Take(StreamKind::Frame)
                } else {
                    PortalAction::Nothing
                },
            },
            PortalEvent::StreamTaken { kind, participant } => {
                let wanted: bool = match kind {
                    StreamKind::Chunk => true,
                    StreamKind::Frame => self.sync_buffer.is_some(),
                };
                if !wanted {
                    return PortalAction::Nothing;
                }
                self.latch_peer(participant.as_str());
                PortalAction::Read(kind)
            },
            PortalEvent::ParticipantDisconnected { identity } => {
                let leaves: bool = match &self.peer_identity {
                    Some(id) => same_text(id.as_str(), identity.as_str()),
                    None => false,
                };
                if leaves {
                    self.peer_identity = None;
                }
                PortalAction::Nothing
            },
            PortalEvent::Reconnected => {
                let mut held: Option<SyncBuffer> = None;
                std::mem::swap(&mut held, &mut self.sync_buffer);
                self.sync_buffer = match held {
                    Some(sb) => {
                        let mut sb: SyncBuffer = sb;
                        sb.clear();
                        Some(sb)
                    },
                    None => None,
                };
                self.clear_slots();
                self.peer_identity = None;
                assert(self@ =~= old(self)@.reconnected());
                PortalAction::Nothing
            },
            PortalEvent::Other => PortalAction::Nothing,
        }
    }

    /// Delivers a row that was shown to its callback: it becomes the latest of its stream, and
    /// a state goes on to the synchronisation buffer.
    pub fn deliver(&mut self, stream: DataStream, sample: DataSample) -> (output: SyncOutput)
        requires
            old(self).wf(),
        ensures
            final(self).wf(),
            stream == DataStream::Action ==> {
                &&& final(self)@ == (PortalView {
                    action: SlotsView { latest: Some(sample@), ..old(self)@.action },
                    ..old(self)@
                })
                &&& output@ == OutputView::empty()
            },
            stream == DataStream::State ==> match old(self)@.sync_buffer {
                None => {
                    &&& final(self)@ == (PortalView {
                        state: SlotsView { latest: Some(sample@), ..old(self)@.state },
                        ..old(self)@
                    })
                    &&& output@ == OutputView::empty()
                },
                Some(sb) => {
                    let (next, out) = sb.state_pushed(
                        StateView { timestamp_us: sample.timestamp_us, values: sample.values@ },
                    );
                    &&& final(self)@ == (PortalView {
                        state: SlotsView { latest: Some(sample@), ..old(self)@.state },
                        sync_buffer: Some(next),
                        ..old(self)@
                    })
                    &&& output@ == out
                },
            },
    {
        match stream {
            DataStream::Action => {
                self.action.deliver(sample);
                SyncOutput::empty()
            },
            DataStream::State => {
                let timestamp_us: u64 = sample.timestamp_us;
                let values: Vec<Double> = copy_values(&sample.values);
                self.state.deliver(sample);
                let mut held: Option<SyncBuffer> = None;
                std::mem::swap(&mut held, &mut self.sync_buffer);
                match held {
                    Some(sb) => {
                        let mut sb: SyncBuffer = sb;
                        let output: SyncOutput = sb.push_state(timestamp_us, values);
                        self.sync_buffer = Some(sb);
                        output
                    },
                    None => SyncOutput::empty(),
                }
            },
        }
    }

    /// Delivers a frame that was shown to its callback: it becomes the latest of its track and
    /// goes on to the synchronisation buffer.
    pub fn deliver_frame(&mut self, track_name: &str, frame: Arc<VideoFrameData>) -> (output:
        SyncOutput)
        requires
            old(self).wf(),
            old(self)@.config.all_tracks().contains(track_name@),
        ensures
            final(self).wf(),
            final(self)@ == (PortalView {
                frames: old(self)@.frames.insert(track_name@, Some(frame)),
                sync_buffer: final(self)@.sync_buffer,
                ..old(self)@
            }),
            match old(self)@.sync_buffer {
                None => final(self)@.sync_buffer is None && output@ == OutputView::empty(),
                Some(sb) => {
                    &&& final(self)@.sync_buffer is Some
                    &&& !sb.names.contains(track_name@) ==> final(self)@.sync_buffer == Some(sb)
                        && output@ == OutputView::empty()
                    &&& forall|i: int| #[trigger]
                        is_last_named(sb.names, track_name@, i) ==> (
                            final(self)@.sync_buffer->0,
                            output@,
                        ) == sb.frame_pushed(i, frame)
                },
            },
    {
        self.video_slots.insert(track_name.to_owned(), Some(frame.clone()));
        let mut held: Option<SyncBuffer> = None;
        std::mem::swap(&mut held, &mut self.sync_buffer);
        match held {
            Some(sb) => {
                let mut sb: SyncBuffer = sb;
                let output: SyncOutput = sb.push_frame(track_name, frame);
                self.sync_buffer = Some(sb);
                output
            },
            None => SyncOutput::empty(),
        }
    }

    /// Delivers a chunk that was shown to its callback. Chunks that were not declared are not
    /// kept.
    pub fn deliver_chunk(&mut self, chunk_name: &str, chunk: ActionChunk)
        requires
            old(self).wf(),
        ensures
            final(self).wf(),
            final(self)@ == (PortalView {
                chunks: if old(self)@.chunks.contains_key(chunk_name@) {
                    old(self)@.chunks.insert(chunk_name@, Some(chunk))
                } else {
                    old(self)@.chunks
                },
                ..old(self)@
            }),
    {
        if self.chunk_slots.contains_key(chunk_name) {
            self.chunk_slots.insert(chunk_name.to_owned(), Some(chunk));
        }
    }

    /// Takes over what a synchronisation buffer gave out, once the observations were shown to
    /// their callback. Returned is what the drop callback gets.
    pub fn dispatch(&mut self, output: SyncOutput) -> (drops: Vec<FieldMap<Double>>)
        requires
            old(self).wf(),
        ensures
            final(self).wf(),
            final(self)@ == (PortalView {
                observation: latest_after(old(self)@.observation, output@),
                ..old(self)@
            }),
            drops@.map_values(|d: FieldMap<Double>| d@) == output@.told(),
    {
        self.obs_sink.dispatch(output)
    }

    /// How a frame goes out on a track.
    pub fn send_video_frame(&self, track_name: &str) -> (route: PortalResult<VideoRoute>)
        requires
            self.wf(),
        ensures
            match route {
                Ok(VideoRoute::Media) => self@.video_publishers.contains(track_name@),
                Ok(VideoRoute::Frame) => !self@.video_publishers.contains(track_name@)
                    && self@.frame_video_publishers.contains(track_name@),
                Err(e) => {
                    &&& !self@.video_publishers.contains(track_name@)
                    &&& !self@.frame_video_publishers.contains(track_name@)
                    &&& e@ == self@.video_refusal(track_name@)
                },
            },
    {
        if self.video_publishers.contains_key(track_name) {
            return Ok(VideoRoute::Media);
        }
        if self.frame_video_publishers.contains_key(track_name) {
            return Ok(VideoRoute::Frame);
        }
        if self.config.role() != Role::Robot && self.video_slots.contains_key(track_name) {
            return Err(PortalError::WrongRole(self.config.role()));
        }
        Err(PortalError::UnknownVideoTrack { name: track_name.to_owned() })
    }

    /// The packet for a state. Only a connected robot with state fields sends states, and only
    /// values of the declared types.
    pub fn send_state(
        &mut self,
        values: &FieldMap<TypedValue>,
        timestamp_us: Option<u64>,
        now_us: u64,
    ) -> (packet: PortalResult<OutgoingPacket>)
        requires
            old(self).wf(),
        ensures
            final(self).wf(),
            final(self)@ == (PortalView {
                state_publisher: publisher_after(old(self)@.state_publisher, values@),
                ..old(self)@
            }),
            row_answer(
                old(self)@.state_publisher,
                Role::Operator,
                values@,
                timestamp_us,
                None,
                now_us,
                packet,
            ),
    {
        let mut held: Option<DataPublisher> = None;
        std::mem::swap(&mut held, &mut self.state_publisher);
        match held {
            Some(p) => {
                let mut p: DataPublisher = p;
                let out: PortalResult<OutgoingPacket> = p.send_typed(
                    values,
                    timestamp_us,
                    None,
                    now_us,
                );
                self.state_publisher = Some(p);
                out
            },
            None => Err(PortalError::WrongRole(Role::Operator)),
        }
    }

    /// The packet for an action. Only a connected operator with action fields sends actions, and
    /// only values of the declared types. `in_reply_to_ts_us` is the time of the observation that
    /// the action answers.
    pub fn send_action(
        &mut self,
        values: &FieldMap<TypedValue>,
        timestamp_us: Option<u64>,
        in_reply_to_ts_us: Option<u64>,
        now_us: u64,
    ) -> (packet: PortalResult<OutgoingPacket>)
        requires
            old(self).wf(),
        ensures
            final(self).wf(),
            final(self)@ == (PortalView {
                action_publisher: publisher_after(old(self)@.action_publisher, values@),
                ..old(self)@
            }),
            row_answer(
                old(self)@.action_publisher,
                Role::Robot,
                values@,
                timestamp_us,
                in_reply_to_ts_us,
                now_us,
                packet,
            ),
    {
        let mut held: Option<DataPublisher> = None;
        std::mem::swap(&mut held, &mut self.action_publisher);
        match held {
            Some(p) => {
                let mut p: DataPublisher = p;
                let out: PortalResult<OutgoingPacket> = p.send_typed(
                    values,
                    timestamp_us,
                    in_reply_to_ts_us,
                    now_us,
                );
                self.action_publisher = Some(p);
                out
            },
            None => Err(PortalError::WrongRole(Role::Robot)),
        }
    }

    /// The chunk for named columns, if a chunk of this name can be sent; if not, the actual
    /// mistake. `in_reply_to_ts_us` is the time of the observation that the chunk answers.
    pub fn send_action_chunk(
        &mut self,
        chunk_name: &str,
        data: &FieldMap<Vec<Double>>,
        timestamp_us: Option<u64>,
        in_reply_to_ts_us: Option<u64>,
        now_us: u64,
    ) -> (r: PortalResult<OutgoingChunk>)
        requires
            old(self).wf(),
        ensures
            final(self).wf(),
            match r {
                Ok(chunk) => {
                    let publishers = old(self)@.chunk_publishers;
                    &&& publishers.contains_key(chunk_name@)
                    &&& chunk_sent(
                        publishers[chunk_name@],
                        data@,
                        timestamp_us,
                        in_reply_to_ts_us,
                        now_us,
                        chunk,
                    )
                    &&& final(self)@ == (PortalView {
                        chunk_publishers: publishers.insert(
                            chunk_name@,
                            publishers[chunk_name@].after_chunk(data@),
                        ),
                        ..old(self)@
                    })
                },
                Err(e) => {
                    &&& !old(self)@.chunk_publishers.contains_key(chunk_name@)
                    &&& e@ == old(self)@.chunk_refusal(chunk_name@)
                    &&& final(self)@ == old(self)@
                },
            },
    {
        let ghost held = self.chunk_publishers@;
        match self.chunk_publishers.remove(chunk_name) {
            Some(publisher) => {
                let mut publisher: ChunkPublisher = publisher;
                let chunk: OutgoingChunk = publisher.send(
                    data,
                    timestamp_us,
                    in_reply_to_ts_us,
                    now_us,
                );
                let ghost view = publisher@;
                self.chunk_publishers.insert(chunk_name.to_owned(), publisher);
                assert(publishers_view(self.chunk_publishers@) =~= publishers_view(held).insert(
                    chunk_name@,
                    view,
                ));
                Ok(chunk)
            },
            None => {
                assert(self.chunk_publishers@ =~= held);
                if self.config.role() != Role::Operator {
                    Err(PortalError::WrongRole(Role::Robot))
                } else if !self.chunk_slots.contains_key(chunk_name) {
                    Err(PortalError::UnknownChunk { name: chunk_name.to_owned() })
                } else {
                    Err(PortalError::NotConnected)
                }
            },
        }
    }

    /// The participant at the other end, once it was heard of.
    pub fn peer_identity(&self) -> (peer: Option<&String>)
        ensures
            match peer {
                Some(id) => self@.peer == Some(id@),
                None => self@.peer is None,
            },
    {
        self.peer_identity.as_ref()
    }

    /// Registers a handler by its number. Returned is whether it is to be installed at once;
    /// otherwise it is when the session is joined.
    pub fn register_rpc_method(&mut self, method: &str, handler: u64) -> (install: bool)
        requires
            old(self).wf(),
        ensures
            final(self).wf(),
            install == old(self)@.participant,
            final(self)@ == (PortalView {
                handlers: old(self)@.handlers.insert(method@, handler),
                ..old(self)@
            }),
    {
        self.rpc_handlers.insert(method.to_owned(), handler);
        self.participant
    }

    /// Removes a handler. Returned is whether it is to be uninstalled at once.
    pub fn unregister_rpc_method(&mut self, method: &str) -> (uninstall: bool)
        requires
            old(self).wf(),
        ensures
            final(self).wf(),
            uninstall == old(self)@.participant,
            final(self)@ == (PortalView {
                handlers: old(self)@.handlers.remove(method@),
                ..old(self)@
            }),
    {
        let _ = self.rpc_handlers.remove(method);
        self.participant
    }

    /// Who a call without a destination goes to, given the other participants of the session.
    pub fn resolve_peer(&self, remotes: &[String]) -> (peer: PortalResult<String>)
        ensures
            result_view(peer) == self@.resolved_peer(texts(remotes@)),
    {
        match &self.peer_identity {
            Some(id) => Ok(id.clone()),
            None => {
                if !self.connected {
                    Err(PortalError::NotConnected)
                } else if remotes.len() == 0 {
                    Err(PortalError::NoPeer)
                } else if remotes.len() == 1 {
                    assert(texts(remotes@)[0] == remotes@[0]@);
                    Ok(remotes[0].clone())
                } else {
                    Err(PortalError::AmbiguousPeer)
                }
            },
        }
    }

    /// Who a call goes to, given the other participants of the session.
    pub fn perform_rpc(&self, destination: Option<&str>, remotes: &[String]) -> (target:
        PortalResult<String>)
        ensures
            result_view(target) == self@.rpc_target(
                match destination {
                    Some(id) => Some(id@),
                    None => None,
                },
                texts(remotes@),
            ),
    {
        let target: String = match destination {
            Some(id) => id.to_owned(),
            None => match self.resolve_peer(remotes) {
                Ok(id) => id,
                Err(e) => {
                    return Err(e);
                },
            },
        };
        if self.participant {
            Ok(target)
        } else {
            Err(PortalError::NotConnected)
        }
    }

    /// The latest observation, if any arrived since the last clear.
    pub fn get_observation(&self) -> (latest: Option<&Observation>)
        ensures
            match latest {
                Some(o) => self@.observation == Some(o@),
                None => self@.observation is None,
            },
    {
        self.obs_sink.get()
    }

    /// The latest action, if any arrived since the last clear.
    pub fn get_action(&self) -> (latest: Option<&DataSample>)
        ensures
            match latest {
                Some(sample) => self@.action.latest == Some(sample@),
                None => self@.action.latest is None,
            },
    {
        self.action.latest()
    }

    /// The latest state, if any arrived since the last clear.
    pub fn get_state(&self) -> (latest: Option<&DataSample>)
        ensures
            match latest {
                Some(sample) => self@.state.latest == Some(sample@),
                None => self@.state.latest is None,
            },
    {
        self.state.latest()
    }

    /// The latest frame of a track, if any arrived since the last clear.
    pub fn get_video_frame(&self, track_name: &str) -> (latest: Option<Arc<VideoFrameData>>)
        ensures
            latest == if self@.frames.contains_key(track_name@) {
                self@.frames[track_name@]
            } else {
                None
            },
    {
        match self.video_slots.get(track_name) {
            Some(slot) => match slot {
                Some(frame) => Some(frame.clone()),
                None => None,
            },
            None => None,
        }
    }

    /// The latest chunk of a name, if any arrived since the last clear.
    pub fn get_action_chunk(&self, chunk_name: &str) -> (latest: Option<&ActionChunk>)
        ensures
            match latest {
                Some(chunk) => self@.chunks.contains_key(chunk_name@) && self@.chunks[chunk_name@]
                    == Some(*chunk),
                None => self@.chunks.contains_key(chunk_name@) ==> self@.chunks[chunk_name@]
                    is None,
            },
    {
        match self.chunk_slots.get(chunk_name) {
            Some(slot) => slot.as_ref(),
            None => None,
        }
    }

    /// Whether a callback for the frames of a track is kept: only for declared tracks.
    pub fn on_video_frame(&self, track_name: &str) -> (kept: bool)
        ensures
            kept == self@.frames.contains_key(track_name@),
    {
        self.video_slots.contains_key(track_name)
    }

    /// Whether a callback for a chunk is kept: only for declared chunks.
    pub fn on_action_chunk(&self, chunk_name: &str) -> (kept: bool)
        ensures
            kept == self@.chunks.contains_key(chunk_name@),
    {
        self.chunk_slots.contains_key(chunk_name)
    }

    pub fn state_schema(&self) -> (schema: &[FieldSpec])
        ensures
            schema_view(schema@) == self@.config.state_schema,
    {
        self.config.state_schema()
    }

    pub fn action_schema(&self) -> (schema: &[FieldSpec])
        ensures
            schema_view(schema@) == self@.config.action_schema,
    {
        self.config.action_schema()
    }

    pub fn action_chunks(&self) -> (chunks: &[ChunkSpec])
        ensures
            chunks@.map_values(|c: ChunkSpec| c@) == self@.config.action_chunks,
    {
        self.config.action_chunks()
    }

    pub fn config(&self) -> (config: &PortalConfig)
        ensures
            config@ == self@.config,
    {
        &self.config
    }

    /// How full the synchronisation buffer is; without one, nothing is.
    pub fn buffer_fill(&self) -> (fill: (FieldMap<usize>, usize))
        requires
            self.wf(),
        ensures
            match self@.sync_buffer {
                Some(sb) => {
                    &&& fill.0@ == crate::field_map::collect(
                        crate::types::paired(
                            sb.names,
                            sb.tracks.map_values(
                                |t: crate::sync_model::TrackView| t.frames.len() as usize,
                            ),
                        ),
                    )
                    &&& fill.1 == sb.states.len()
                },
                None => fill.0@ == Map::<Seq<char>, usize>::empty() && fill.1 == 0,
            },
    {
        match &self.sync_buffer {
            Some(sb) => (sb.video_fill_snapshot(), sb.state_fill()),
            None => (FieldMap::new(), 0),
        }
    }
}

fn copy_values(values: &Vec<Double>) -> (copy: Vec<Double>)
    ensures
        copy@ == values@,
{
    let mut copy: Vec<Double> = Vec::new();
    let mut i: usize = 0;
    while i < values.len()
        invariant
            i <= values@.len(),
            copy@ == values@.take(i as int),
        decreases values@.len() - i,
    {
        copy.push(values[i]);
        i += 1;
        assert(copy@ =~= values@.take(i as int));
    }
    assert(copy@ =~= values@);
    copy
}

} // verus!
