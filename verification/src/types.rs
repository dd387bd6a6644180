//! The values that travel through a portal.

use std::sync::Arc;

use vstd::prelude::*;

use crate::double::Double;
use crate::field_map::{collect, FieldMap};

verus! {

/// Which end of a session a portal is.
#[derive(Debug, Clone, Copy, PartialEq, Eq, Structural)]
pub enum Role {
    /// Publishes video and state, receives actions.
    Robot,
    /// Publishes actions, receives video and state as synchronised observations.
    Operator,
}

/// The participant identity of a role.
pub open spec fn role_identity(role: Role) -> Seq<char> {
    match role {
        Role::Robot => "robot"@,
        Role::Operator => "operator"@,
    }
}

impl Role {
    /// The participant identity under which this role joins a session.
    pub fn identity(&self) -> (name: &'static str)
        ensures
            name@ == role_identity(*self),
    {
        match self {
            Role::Robot => "robot",
            Role::Operator => "operator",
        }
    }
}

/// A decoded video frame.
#[derive(Debug)]
pub struct VideoFrameData {
    pub width: u32,
    pub height: u32,
    pub data: Vec<u8>,
    /// Sender time in microseconds.
    pub timestamp_us: u64,
}

/// A synchronised observation: one state matched with one frame from every registered video
/// track.
pub struct Observation {
    pub state: FieldMap<Double>,
    pub frames: FieldMap<Arc<VideoFrameData>>,
    /// Sender time of the state.
    pub timestamp_us: u64,
}

/// What an observation holds.
#[verifier::ext_equal]
pub struct ObservationView {
    pub state: Map<Seq<char>, Double>,
    pub frames: Map<Seq<char>, Arc<VideoFrameData>>,
    pub timestamp_us: u64,
}

impl View for Observation {
    type V = ObservationView;

    open spec fn view(&self) -> ObservationView {
        ObservationView {
            state: self.state@,
            frames: self.frames@,
            timestamp_us: self.timestamp_us,
        }
    }
}

/// How far frames and states may lie apart, and how many of each are kept.
#[derive(Debug, Clone, Copy, PartialEq, Eq, Structural)]
pub struct SyncConfig {
    /// Frames kept per video track.
    pub video_buffer_size: u32,
    /// States kept while they wait for their frames.
    pub state_buffer_size: u32,
    /// A frame matches a state when their timestamps differ by less than this.
    pub search_range_us: u64,
    /// Observations kept for a consumer that pulls them.
    pub observation_buffer_size: u32,
    /// Fall back to the last emitted frame of a track instead of waiting or dropping.
    pub reuse_stale_frames: bool,
}

impl Default for SyncConfig {
    fn default() -> (c: Self)
        ensures
            c == (SyncConfig {
                video_buffer_size: 30,
                state_buffer_size: 30,
                search_range_us: 30_000,
                observation_buffer_size: 10,
                reuse_stale_frames: false,
            }),
    {
        SyncConfig {
            video_buffer_size: 30,
            state_buffer_size: 30,
            search_range_us: 30_000,
            observation_buffer_size: 10,
            reuse_stale_frames: false,
        }
    }
}

/// The texts of a list of strings.
pub open spec fn texts(names: Seq<String>) -> Seq<Seq<char>> {
    names.map_values(|s: String| s@)
}

/// Names paired with values, as far as both lists reach.
pub open spec fn paired<T>(names: Seq<Seq<char>>, values: Seq<T>) -> Seq<(Seq<char>, T)> {
    Seq::new(
        if names.len() <= values.len() {
            names.len()
        } else {
            values.len()
        },
        |i: int| (names[i], values[i]),
    )
}

/// Ordered values by the names of their fields.
pub fn to_field_map(fields: &[String], values: &[Double]) -> (map: FieldMap<Double>)
    ensures
        map@ == collect(paired(texts(fields@), values@)),
{
    let ghost all = paired(texts(fields@), values@);
    let mut map: FieldMap<Double> = FieldMap::new();
    let mut i: usize = 0;
    assert(all.take(0) =~= Seq::empty());
    while i < fields.len() && i < values.len()
        invariant
            all == paired(texts(fields@), values@),
            i <= all.len(),
            map@ == collect(all.take(i as int)),
        decreases all.len() - i,
    {
        map.insert(fields[i].clone(), values[i]);
        assert(all.take(i + 1).drop_last() =~= all.take(i as int));
        assert(all.take(i + 1).last() == (fields@[i as int]@, values@[i as int]));
        i += 1;
    }
    assert(all.take(i as int) =~= all);
    map
}

/// Named values are found under their names: of two values of one name the later is, and no name
/// is found that was not given a value.
pub proof fn law_names_find_their_values<T>(names: Seq<Seq<char>>, values: Seq<T>, k: Seq<char>)
    ensures
        collect(paired(names, values)).contains_key(k) <==> exists|j: int|
            0 <= j < names.len() && j < values.len() && #[trigger] names[j] == k,
        forall|i: int|
            0 <= i < names.len() && i < values.len() && names[i] == k && (forall|j: int|
                i < j < names.len() && j < values.len() ==> #[trigger] names[j] != k) ==> collect(
                paired(names, values),
            )[k] == #[trigger] values[i],
{
    let pairs = paired(names, values);
    crate::field_map::lemma_collect_domain(pairs, k);
    if exists|j: int| 0 <= j < names.len() && j < values.len() && #[trigger] names[j] == k {
        let j = choose|j: int|
            0 <= j < names.len() && j < values.len() && #[trigger] names[j] == k;
        assert(crate::field_map::named_at(pairs, k, j));
    }
    if collect(pairs).contains_key(k) {
        let j = choose|j: int| crate::field_map::named_at(pairs, k, j);
        assert(names[j] == k);
    }
    assert forall|i: int|
        0 <= i < names.len() && i < values.len() && names[i] == k && (forall|j: int|
            i < j < names.len() && j < values.len() ==> #[trigger] names[j]
                != k) implies collect(pairs)[k] == #[trigger] values[i] by {
        assert forall|j: int| i < j < pairs.len() implies (#[trigger] pairs[j]).0
            != pairs[i].0 by {
            assert(names[j] != k);
        }
        crate::field_map::lemma_collect_value(pairs, i);
    }
}

/// The texts of a list are those of its strings, in order.
pub proof fn law_texts_are_in_order(names: Seq<String>, i: int)
    ensures
        texts(names).len() == names.len(),
        0 <= i < names.len() ==> texts(names)[i] == names[i]@,
{
}

/// The two roles join a session under identities of their own.
pub proof fn law_identities_differ()
    ensures
        role_identity(Role::Robot) == "robot"@,
        role_identity(Role::Operator) == "operator"@,
        role_identity(Role::Robot) != role_identity(Role::Operator),
{
    reveal_strlit("robot");
    reveal_strlit("operator");
}

} // verus!
