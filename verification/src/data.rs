//! Sending and receiving rows of values.

use vstd::prelude::*;

use crate::config::{
    field_dtypes, field_names, schema_dtypes, schema_names, schema_view, FieldSpec, FieldView,
};
use crate::double::Double;
use crate::dtype::{saturates, DType};
use crate::error::{error_text, ErrorView, PortalResult};
use crate::field_map::{collect, FieldMap};
use crate::serialization::{
    deserialize_values, length_text, payload_size, row, row_decodes_to, serialize_values,
};
use crate::text::{decimal, has_text, hex, push_decimal, push_hex, same_text, stands_at};
use crate::typed::{check_kinds, kind_fault, plain_of, plain_values, TypedValue};
use crate::types::{paired, texts, to_field_map, Role};

verus! {

/// Topic of states.
pub const STATE_TOPIC: &'static str = "portal_state";

/// Topic of actions.
pub const ACTION_TOPIC: &'static str = "portal_action";

/// Topic of round-trip measurements.
pub const RTT_TOPIC: &'static str = "portal_rtt";

/// Packets that may wait to be published; more are dropped rather than kept.
pub const PUBLISH_QUEUE_CAP: usize = 1024;

/// A packet to be published, and what is to be said about its row.
pub struct OutgoingPacket {
    pub payload: Vec<u8>,
    pub topic: String,
    pub reliable: bool,
    /// The fingerprint of the sender's schema, to be sent along with the row.
    pub fingerprint: u32,
    /// The time of the observation that the row answers, to be sent along with it.
    pub in_reply_to_ts_us: Option<u64>,
    /// Names in the row that no field has and that were not reported before.
    pub unknown_keys: Vec<String>,
    /// Fields that were sent with a value out of their range for the first time.
    pub saturated: Vec<usize>,
}

/// What became of a packet that was put into the publish queue.
#[derive(Debug, Clone, Copy, PartialEq, Eq, Structural)]
pub enum QueueOutcome {
    Queued,
    Full,
    Closed,
}

/// Publishes rows of values. Fields that a row leaves out keep the value they were last sent
/// with.
pub struct DataPublisher {
    schema: Vec<FieldSpec>,
    dtypes: Vec<DType>,
    fingerprint: u32,
    topic: String,
    reliable: bool,
    last_values: Vec<Double>,
    warned_saturated: Vec<usize>,
    warned_unknown_keys: Vec<String>,
}

/// What a publisher knows.
#[verifier::ext_equal]
pub struct PublisherView {
    pub schema: Seq<FieldView>,
    /// The fingerprint of the schema.
    pub fingerprint: u32,
    pub topic: Seq<char>,
    pub reliable: bool,
    pub last_values: Seq<Double>,
    pub warned_saturated: Set<int>,
    pub warned_unknown_keys: Set<Seq<char>>,
}

/// The values of a row that follows `last`: what `map` holds for a field, and the last value
/// of every other field.
pub open spec fn carried_forward(
    names: Seq<Seq<char>>,
    last: Seq<Double>,
    map: Map<Seq<char>, Double>,
) -> Seq<Double> {
    Seq::new(
        last.len(),
        |i: int|
            if i < names.len() && map.contains_key(names[i]) {
                map[names[i]]
            } else {
                last[i]
            },
    )
}

/// Brings the last values up to date with a row.
pub fn apply_carry_forward(schema: &[FieldSpec], last: &mut Vec<Double>, map: &FieldMap<Double>)
    requires
        schema@.len() <= old(last)@.len(),
    ensures
        final(last)@ == carried_forward(
            schema_names(schema_view(schema@)),
            old(last)@,
            map@,
        ),
{
    let ghost names = schema_names(schema_view(schema@));
    let ghost want = carried_forward(names, last@, map@);
    let mut i: usize = 0;
    while i < schema.len()
        invariant
            i <= schema@.len() <= last@.len(),
            names == schema_names(schema_view(schema@)),
            names.len() == schema@.len(),
            want == carried_forward(names, old(last)@, map@),
            last@.len() == old(last)@.len(),
            forall|j: int| 0 <= j < i ==> #[trigger] last@[j] == want[j],
            forall|j: int| i <= j < last@.len() ==> #[trigger] last@[j] == old(last)@[j],
        decreases schema@.len() - i,
    {
        assert(names[i as int] == schema@[i as int].name@);
        if let Some(v) = map.get(schema[i].name.as_str()) {
            let v: Double = *v;
            last.set(i, v);
        }
        i += 1;
    }
    assert(last@ =~= want);
}

/// The texts of a list as a set.
pub open spec fn text_set(list: Seq<String>) -> Set<Seq<char>> {
    texts(list).to_set()
}

/// The indices of a list as a set.
pub open spec fn index_set(list: Seq<usize>) -> Set<int> {
    Set::new(|i: int| exists|k: int| 0 <= k < list.len() && #[trigger] list[k] == i)
}

/// `found` are the members of `fresh`, each once.
pub open spec fn lists_once(found: Seq<Seq<char>>, fresh: Set<Seq<char>>) -> bool {
    &&& found.no_duplicates()
    &&& forall|k: Seq<char>| #[trigger] found.contains(k) <==> fresh.contains(k)
}

impl PublisherView {
    /// A publisher that has sent nothing yet.
    pub open spec fn initial(
        schema: Seq<FieldView>,
        fingerprint: u32,
        topic: Seq<char>,
        reliable: bool,
    ) -> PublisherView {
        PublisherView {
            schema,
            fingerprint,
            topic,
            reliable,
            last_values: Seq::new(schema.len(), |i: int| Double { bits: 0 }),
            warned_saturated: Set::empty(),
            warned_unknown_keys: Set::empty(),
        }
    }

    /// The names in a row that no field has.
    pub open spec fn unknown_keys(self, map: Map<Seq<char>, Double>) -> Set<Seq<char>> {
        strangers(map.dom(), self.schema)
    }
}

impl PublisherView {
    /// The fields whose last value the wire does not carry.
    pub open spec fn saturated(self) -> Set<int> {
        Set::new(
            |i: int|
                0 <= i < self.schema.len() && saturates(self.schema[i].dtype, self.last_values[i]),
        )
    }

    /// The publisher with the values of a row.
    pub open spec fn updated(self, values: Map<Seq<char>, Double>) -> PublisherView {
        PublisherView {
            last_values: carried_forward(schema_names(self.schema), self.last_values, values),
            ..self
        }
    }

    /// The publisher after a row.
    pub open spec fn after_row(self, values: Map<Seq<char>, Double>) -> PublisherView {
        PublisherView {
            warned_unknown_keys: self.warned_unknown_keys.union(self.unknown_keys(values)),
            warned_saturated: self.warned_saturated.union(self.updated(values).saturated()),
            ..self.updated(values)
        }
    }
}

/// `found` are the members of `fresh`, each once.
pub open spec fn lists_indices_once(found: Seq<usize>, fresh: Set<int>) -> bool {
    &&& found.no_duplicates()
    &&& forall|i: usize| #[trigger] found.contains(i) <==> fresh.contains(i as int)
}

/// The packet that a publisher makes of a row.
pub open spec fn packet_sent(
    publisher: PublisherView,
    values: Map<Seq<char>, Double>,
    timestamp_us: Option<u64>,
    in_reply_to_ts_us: Option<u64>,
    now_us: u64,
    packet: OutgoingPacket,
) -> bool {
    &&& packet.payload@ == row(
        match timestamp_us {
            Some(ts) => ts,
            None => now_us,
        },
        publisher.after_row(values).last_values,
        schema_dtypes(publisher.schema),
    )
    &&& packet.topic@ == publisher.topic
    &&& packet.reliable == publisher.reliable
    &&& packet.fingerprint == publisher.fingerprint
    &&& packet.in_reply_to_ts_us == in_reply_to_ts_us
    &&& lists_once(
        texts(packet.unknown_keys@),
        publisher.unknown_keys(values).difference(publisher.warned_unknown_keys),
    )
    &&& lists_indices_once(
        packet.saturated@,
        publisher.updated(values).saturated().difference(publisher.warned_saturated),
    )
}

impl PublisherView {
    /// Why a row cannot be sent, if it cannot.
    pub open spec fn refusal(self, values: Map<Seq<char>, TypedValue>) -> Option<ErrorView> {
        kind_fault(self.schema, values)
    }
}

/// What sending a row comes to: without a publisher the role is wrong, a value of another type
/// than its field's is refused, and anything else goes out.
pub open spec fn row_answer(
    publisher: Option<PublisherView>,
    role: Role,
    values: Map<Seq<char>, TypedValue>,
    timestamp_us: Option<u64>,
    in_reply_to_ts_us: Option<u64>,
    now_us: u64,
    packet: PortalResult<OutgoingPacket>,
) -> bool {
    let fault = match publisher {
        None => Some(ErrorView::WrongRole(role)),
        Some(p) => p.refusal(values),
    };
    match packet {
        Err(e) => fault == Some(e@),
        Ok(out) => fault is None && packet_sent(
            publisher->0,
            plain_of(values),
            timestamp_us,
            in_reply_to_ts_us,
            now_us,
            out,
        ),
    }
}

/// The publisher after a row was sent or refused.
pub open spec fn publisher_after(
    publisher: Option<PublisherView>,
    values: Map<Seq<char>, TypedValue>,
) -> Option<PublisherView> {
    match publisher {
        Some(p) => if p.refusal(values) is None {
            Some(p.after_row(plain_of(values)))
        } else {
            Some(p)
        },
        None => None,
    }
}

impl View for DataPublisher {
    type V = PublisherView;

    closed spec fn view(&self) -> PublisherView {
        PublisherView {
            schema: schema_view(self.schema@),
            fingerprint: self.fingerprint,
            topic: self.topic@,
            reliable: self.reliable,
            last_values: self.last_values@,
            warned_saturated: index_set(self.warned_saturated@),
            warned_unknown_keys: text_set(self.warned_unknown_keys@),
        }
    }
}

impl DataPublisher {
    /// There is one type and one last value for every field.
    pub closed spec fn wf(&self) -> bool {
        &&& self.dtypes@ == schema_dtypes(schema_view(self.schema@))
        &&& self.last_values@.len() == self.schema@.len()
    }

    /// A publisher of rows of a schema, whose fingerprint every packet carries.
    pub fn new(schema: Vec<FieldSpec>, fingerprint: u32, topic: &str, reliable: bool) -> (publisher:
        DataPublisher)
        ensures
            publisher.wf(),
            publisher@ == PublisherView::initial(
                schema_view(schema@),
                fingerprint,
                topic@,
                reliable,
            ),
    {
        let dtypes: Vec<DType> = field_dtypes(schema.as_slice());
        let mut last_values: Vec<Double> = Vec::new();
        let n: usize = schema.len();
        while last_values.len() < n
            invariant
                last_values@.len() <= n,
                forall|i: int|
                    0 <= i < last_values@.len() ==> #[trigger] last_values@[i] == (Double {
                        bits: 0,
                    }),
            decreases n - last_values@.len(),
        {
            last_values.push(Double::from_bits(0));
        }
        let publisher = DataPublisher {
            schema,
            dtypes,
            fingerprint,
            topic: topic.to_owned(),
            reliable,
            last_values,
            warned_saturated: Vec::new(),
            warned_unknown_keys: Vec::new(),
        };
        proof {
            let want = PublisherView::initial(
                schema_view(schema@),
                fingerprint,
                topic@,
                reliable,
            );
            assert(publisher@.last_values =~= want.last_values);
            assert(publisher@.warned_saturated =~= want.warned_saturated);
            assert(publisher@.warned_unknown_keys =~= want.warned_unknown_keys);
        }
        publisher
    }

    /// The packet for a row whose values are of the declared types. Otherwise nothing changes.
    pub fn send_typed(
        &mut self,
        map: &FieldMap<TypedValue>,
        timestamp_us: Option<u64>,
        in_reply_to_ts_us: Option<u64>,
        now_us: u64,
    ) -> (packet: PortalResult<OutgoingPacket>)
        requires
            old(self).wf(),
        ensures
            final(self).wf(),
            match packet {
                Err(e) => old(self)@.refusal(map@) == Some(e@) && final(self)@ == old(self)@,
                Ok(out) => {
                    &&& old(self)@.refusal(map@) is None
                    &&& final(self)@ == old(self)@.after_row(plain_of(map@))
                    &&& packet_sent(
                        old(self)@,
                        plain_of(map@),
                        timestamp_us,
                        in_reply_to_ts_us,
                        now_us,
                        out,
                    )
                },
            },
    {
        match check_kinds(self.schema.as_slice(), map) {
            Err(e) => Err(e),
            Ok(_) => {
                let plain: FieldMap<Double> = plain_values(map);
                Ok(self.send_map(&plain, timestamp_us, in_reply_to_ts_us, now_us))
            },
        }
    }

    /// The packet for a row, which is stamped with `timestamp_us` or, without one, with the
    /// current time. Left-out fields keep their last value.
    pub fn send_map(
        &mut self,
        map: &FieldMap<Double>,
        timestamp_us: Option<u64>,
        in_reply_to_ts_us: Option<u64>,
        now_us: u64,
    ) -> (packet: OutgoingPacket)
        requires
            old(self).wf(),
        ensures
            final(self).wf(),
            final(self)@ == old(self)@.after_row(map@),
            packet_sent(old(self)@, map@, timestamp_us, in_reply_to_ts_us, now_us, packet),
    {
        let unknown_keys: Vec<String> = self.warn_unknown_keys(map);
        let ts: u64 = match timestamp_us {
            Some(ts) => ts,
            None => now_us,
        };
        apply_carry_forward(self.schema.as_slice(), &mut self.last_values, map);
        let payload: Vec<u8> = serialize_values(
            ts,
            self.last_values.as_slice(),
            self.dtypes.as_slice(),
        );
        let indices: Vec<usize> = self.saturated_indices();
        let saturated: Vec<usize> = self.warn_saturated(indices.as_slice());
        OutgoingPacket {
            payload,
            topic: self.topic.clone(),
            reliable: self.reliable,
            fingerprint: self.fingerprint,
            in_reply_to_ts_us,
            unknown_keys,
            saturated,
        }
    }

    /// The fields whose last value the wire does not carry.
    fn saturated_indices(&self) -> (indices: Vec<usize>)
        requires
            self.wf(),
        ensures
            index_set(indices@) == self@.saturated(),
    {
        let mut indices: Vec<usize> = Vec::new();
        let mut i: usize = 0;
        while i < self.schema.len()
            invariant
                self.wf(),
                i <= self.schema@.len(),
                forall|k: usize| #[trigger]
                    indices@.contains(k) <==> k < i && self@.saturated().contains(k as int),
            decreases self.schema@.len() - i,
        {
            assert(self@.schema[i as int] == self.schema@[i as int]@);
            if self.schema[i].dtype.saturates(self.last_values[i]) {
                let ghost before = indices@;
                indices.push(i);
                proof {
                    lemma_push_contains(before, i);
                }
            }
            i += 1;
        }
        assert forall|x: int| index_set(indices@).contains(x) <==> self@.saturated().contains(
            x,
        ) by {
            if 0 <= x < self.schema@.len() {
                lemma_index_set(indices@, x as usize);
            }
            if index_set(indices@).contains(x) {
                let k = choose|k: int| 0 <= k < indices@.len() && #[trigger] indices@[k] == x;
                assert(indices@.contains(indices@[k]));
            }
        }
        assert(index_set(indices@) =~= self@.saturated());
        indices
    }

    /// The names in a row that no field has and that were not reported before, each once.
    fn warn_unknown_keys(&mut self, map: &FieldMap<Double>) -> (report: Vec<String>)
        requires
            old(self).wf(),
        ensures
            final(self).wf(),
            lists_once(
                texts(report@),
                old(self)@.unknown_keys(map@).difference(old(self)@.warned_unknown_keys),
            ),
            final(self)@ == (PublisherView {
                warned_unknown_keys: old(self)@.warned_unknown_keys.union(
                    old(self)@.unknown_keys(map@),
                ),
                ..old(self)@
            }),
    {
        note_unknown_keys(map, self.schema.as_slice(), &mut self.warned_unknown_keys)
    }

    /// Those of `indices` that were not reported as saturated before, each once, in order.
    fn warn_saturated(&mut self, indices: &[usize]) -> (report: Vec<usize>)
        requires
            old(self).wf(),
        ensures
            final(self).wf(),
            lists_indices_once(
                report@,
                index_set(indices@).difference(old(self)@.warned_saturated),
            ),
            final(self)@ == (PublisherView {
                warned_saturated: old(self)@.warned_saturated.union(index_set(indices@)),
                ..old(self)@
            }),
    {
        let mut report: Vec<usize> = Vec::new();
        let mut i: usize = 0;
        while i < indices.len()
            invariant
                self.wf(),
                self.schema == old(self).schema,
                self.dtypes == old(self).dtypes,
                self.fingerprint == old(self).fingerprint,
                self.topic == old(self).topic,
                self.reliable == old(self).reliable,
                self.last_values == old(self).last_values,
                self.warned_unknown_keys == old(self).warned_unknown_keys,
                i <= indices@.len(),
                forall|k: usize| #[trigger]
                    self.warned_saturated@.contains(k) <==> old(
                        self,
                    ).warned_saturated@.contains(k) || indices@.take(i as int).contains(k),
                forall|k: usize| #[trigger]
                    report@.contains(k) <==> !old(self).warned_saturated@.contains(k)
                        && indices@.take(i as int).contains(k),
                report@.no_duplicates(),
            decreases indices@.len() - i,
        {
            let k: usize = indices[i];
            let ghost before = self.warned_saturated@;
            let ghost listed = report@;
            if !contains_index(&self.warned_saturated, k) {
                self.warned_saturated.push(k);
                report.push(k);
                proof {
                    lemma_push_contains(before, k);
                    lemma_push_contains(listed, k);
                    assert(!listed.contains(k));
                    lemma_push_distinct(listed, k);
                }
            }
            proof {
                assert(indices@.take(i + 1) =~= indices@.take(i as int).push(k));
                lemma_push_contains(indices@.take(i as int), k);
            }
            i += 1;
        }
        proof {
            assert(indices@.take(i as int) =~= indices@);
            assert forall|k: usize| #[trigger] report@.contains(k) <==> index_set(
                indices@,
            ).difference(old(self)@.warned_saturated).contains(k as int) by {
                lemma_index_set(old(self).warned_saturated@, k);
                lemma_index_set(indices@, k);
            }
            assert(self@.warned_saturated =~= old(self)@.warned_saturated.union(
                index_set(indices@),
            )) by {
                assert forall|x: int| self@.warned_saturated.contains(x) <==> old(
                    self,
                )@.warned_saturated.union(index_set(indices@)).contains(x) by {
                    if 0 <= x <= usize::MAX {
                        lemma_index_set(self.warned_saturated@, x as usize);
                        lemma_index_set(old(self).warned_saturated@, x as usize);
                        lemma_index_set(indices@, x as usize);
                    }
                }
            }
        }
        report
    }
}

/// Those of `keys` that no field has.
pub open spec fn strangers(keys: Set<Seq<char>>, schema: Seq<FieldView>) -> Set<Seq<char>> {
    keys.filter(|k: Seq<char>| !schema_names(schema).contains(k))
}

/// Whether a field has this name.
fn has_field(schema: &[FieldSpec], key: &str) -> (known: bool)
    ensures
        known == schema_names(schema_view(schema@)).contains(key@),
{
    let ghost names = schema_names(schema_view(schema@));
    let mut i: usize = 0;
    while i < schema.len()
        invariant
            i <= schema@.len(),
            names == schema_names(schema_view(schema@)),
            forall|j: int| 0 <= j < i ==> #[trigger] names[j] != key@,
        decreases schema@.len() - i,
    {
        assert(names[i as int] == schema@[i as int].name@);
        if same_text(schema[i].name.as_str(), key) {
            return true;
        }
        i += 1;
    }
    assert(names.len() == schema@.len());
    false
}

/// `k` is one of the first `n` names of a row and no field has it.
spec fn unknown_before<T>(
    pairs: Seq<(Seq<char>, T)>,
    names: Seq<Seq<char>>,
    n: int,
    k: Seq<char>,
) -> bool {
    exists|j: int| 0 <= j < n && (#[trigger] pairs[j]).0 == k && !names.contains(k)
}

proof fn lemma_unknown_step<T>(
    pairs: Seq<(Seq<char>, T)>,
    names: Seq<Seq<char>>,
    n: int,
    k: Seq<char>,
)
    requires
        0 <= n < pairs.len(),
    ensures
        unknown_before(pairs, names, n + 1, k) <==> (unknown_before(pairs, names, n, k) || k
            == pairs[n].0 && !names.contains(k)),
{
    if unknown_before(pairs, names, n, k) {
        let j = choose|j: int| 0 <= j < n && (#[trigger] pairs[j]).0 == k && !names.contains(k);
        assert(0 <= j < n + 1 && pairs[j].0 == k);
    }
    if k == pairs[n].0 && !names.contains(k) {
        assert(0 <= n < n + 1 && pairs[n].0 == k);
    }
}

/// The names in a row that no field has and that were not reported before, each once. They are
/// added to the reported ones.
pub fn note_unknown_keys<T>(
    map: &FieldMap<T>,
    schema: &[FieldSpec],
    warned: &mut Vec<String>,
) -> (report: Vec<String>)
    ensures
        lists_once(
            texts(report@),
            strangers(map@.dom(), schema_view(schema@)).difference(text_set(old(warned)@)),
        ),
        text_set(final(warned)@) == text_set(old(warned)@).union(
            strangers(map@.dom(), schema_view(schema@)),
        ),
{
    let mut report: Vec<String> = Vec::new();
    let n: usize = map.len();
    let ghost pairs = map.pairs();
    let ghost names = schema_names(schema_view(schema@));
    let mut i: usize = 0;
    while i < n
        invariant
            n == map.pairs().len(),
            pairs == map.pairs(),
            crate::field_map::distinct_names(pairs),
            names == schema_names(schema_view(schema@)),
            i <= n,
            forall|k: Seq<char>| #[trigger]
                texts(warned@).contains(k) <==> texts(old(warned)@).contains(k)
                    || unknown_before(pairs, names, i as int, k),
            forall|k: Seq<char>| #[trigger]
                texts(report@).contains(k) <==> !texts(old(warned)@).contains(k)
                    && unknown_before(pairs, names, i as int, k),
            texts(report@).no_duplicates(),
        decreases n - i,
    {
        let key: &str = map.name_at(i);
        let ghost before = texts(warned@);
        let ghost listed = texts(report@);
        let ghost k0 = key@;
        assert(pairs[i as int].0 == k0);
        if !has_field(schema, key) && !has_text(warned, key) {
            warned.push(key.to_owned());
            report.push(key.to_owned());
            proof {
                assert(texts(warned@) =~= before.push(k0));
                assert(texts(report@) =~= listed.push(k0));
                lemma_push_contains(before, k0);
                lemma_push_contains(listed, k0);
                assert(!listed.contains(k0));
                lemma_push_distinct(listed, k0);
            }
        }
        proof {
            assert forall|k: Seq<char>|
                unknown_before(pairs, names, i + 1, k) <==> (unknown_before(
                    pairs,
                    names,
                    i as int,
                    k,
                ) || k == k0 && !names.contains(k)) by {
                lemma_unknown_step(pairs, names, i as int, k);
            }
            if names.contains(k0) {
            } else {
                assert(texts(warned@).contains(k0));
            }
            assert forall|k: Seq<char>| #[trigger]
                texts(report@).contains(k) <==> !texts(old(warned)@).contains(k)
                    && unknown_before(pairs, names, i + 1, k) by {
                lemma_unknown_step(pairs, names, i as int, k);
                if k == k0 && unknown_before(pairs, names, i as int, k) {
                    let j = choose|j: int|
                        0 <= j < i && (#[trigger] pairs[j]).0 == k && !names.contains(k);
                    assert(pairs[j].0 != pairs[i as int].0);
                }
            }
        }
        i += 1;
    }
    proof {
        let unknown = strangers(map@.dom(), schema_view(schema@));
        assert forall|k: Seq<char>| unknown.contains(k) <==> unknown_before(
            pairs,
            names,
            n as int,
            k,
        ) by {
            crate::field_map::lemma_collect_domain(pairs, k);
            if unknown.contains(k) {
                let j = choose|j: int| crate::field_map::named_at(pairs, k, j);
                assert(pairs[j].0 == k);
            }
            if unknown_before(pairs, names, n as int, k) {
                let j = choose|j: int|
                    0 <= j < n && (#[trigger] pairs[j]).0 == k && !names.contains(k);
                assert(crate::field_map::named_at(pairs, k, j));
            }
        }
        assert(text_set(warned@) =~= text_set(old(warned)@).union(unknown));
    }
    report
}

/// What follows from the fate of a packet: whether it counts as sent, and the warning, if any.
/// A closed queue means that the portal is being taken down.
pub fn settle(topic: &str, outcome: QueueOutcome) -> (note: (bool, Option<String>))
    ensures
        note.0 == (outcome == QueueOutcome::Queued),
        match note.1 {
            Some(text) => outcome == QueueOutcome::Full && text@ == queue_full_text(topic@),
            None => outcome != QueueOutcome::Full,
        },
{
    match outcome {
        QueueOutcome::Queued => (true, None),
        QueueOutcome::Full => {
            let mut text: String = crate::error::joined("publish queue full for topic '", topic);
            text.append("' (cap=");
            push_decimal(&mut text, PUBLISH_QUEUE_CAP as u64);
            text.append("); dropping packet");
            (false, Some(text))
        },
        QueueOutcome::Closed => (false, None),
    }
}

/// The warning about a full publish queue.
pub open spec fn queue_full_text(topic: Seq<char>) -> Seq<char> {
    "publish queue full for topic '"@ + topic + "' (cap="@ + decimal(PUBLISH_QUEUE_CAP as nat)
        + "); dropping packet"@
}

fn contains_index(list: &Vec<usize>, k: usize) -> (has: bool)
    ensures
        has == list@.contains(k),
{
    let mut i: usize = 0;
    while i < list.len()
        invariant
            i <= list@.len(),
            forall|j: int| 0 <= j < i ==> #[trigger] list@[j] != k,
        decreases list@.len() - i,
    {
        if list[i] == k {
            assert(list@[i as int] == k);
            return true;
        }
        i += 1;
    }
    false
}

proof fn lemma_push_contains<T>(s: Seq<T>, x: T)
    ensures
        forall|y: T| #[trigger] s.push(x).contains(y) <==> s.contains(y) || y == x,
{
    assert forall|y: T| #[trigger] s.push(x).contains(y) <==> s.contains(y) || y == x by {
        if s.contains(y) {
            let i = choose|i: int| 0 <= i < s.len() && s[i] == y;
            assert(s.push(x)[i] == y);
        }
        if y == x {
            assert(s.push(x)[s.len() as int] == y);
        }
        if s.push(x).contains(y) {
            let i = choose|i: int| 0 <= i < s.push(x).len() && s.push(x)[i] == y;
            if i < s.len() {
                assert(s[i] == y);
            }
        }
    }
}

proof fn lemma_push_distinct<T>(s: Seq<T>, x: T)
    requires
        s.no_duplicates(),
        !s.contains(x),
    ensures
        s.push(x).no_duplicates(),
{
    let t = s.push(x);
    assert forall|i: int, j: int| 0 <= i < t.len() && 0 <= j < t.len() && i != j implies t[i]
        != t[j] by {
        if i < s.len() && j < s.len() {
            assert(s[i] != s[j]);
        } else if i < s.len() {
            assert(s[i] != x);
        } else {
            assert(s[j] != x);
        }
    }
}

proof fn lemma_index_set(list: Seq<usize>, k: usize)
    ensures
        index_set(list).contains(k as int) <==> list.contains(k),
{
    if list.contains(k) {
        let i = choose|i: int| 0 <= i < list.len() && list[i] == k;
        assert(list[i] == k as int);
    }
    if index_set(list).contains(k as int) {
        let i = choose|i: int| 0 <= i < list.len() && #[trigger] list[i] == k as int;
        assert(list[i] == k);
    }
}

/// Sending two rows leaves the values of one row in which the later overrides the earlier.
pub proof fn law_carry_forward_composes(
    names: Seq<Seq<char>>,
    last: Seq<Double>,
    first: Map<Seq<char>, Double>,
    second: Map<Seq<char>, Double>,
)
    ensures
        carried_forward(names, carried_forward(names, last, first), second) == carried_forward(
            names,
            last,
            first.union_prefer_right(second),
        ),
{
    let once = carried_forward(names, last, first);
    assert(carried_forward(names, once, second) =~= carried_forward(
        names,
        last,
        first.union_prefer_right(second),
    ));
}

/// A name that no field has, and a field with a value out of its range, are reported at most
/// once.
pub proof fn law_reported_once(
    publisher: PublisherView,
    first: Map<Seq<char>, Double>,
    second: Map<Seq<char>, Double>,
    key: Seq<char>,
    i: int,
)
    ensures
        publisher.unknown_keys(first).contains(key) || publisher.warned_unknown_keys.contains(key)
            ==> !publisher.after_row(first).unknown_keys(second).difference(
            publisher.after_row(first).warned_unknown_keys,
        ).contains(key),
        publisher.updated(first).saturated().contains(i) || publisher.warned_saturated.contains(i)
            ==> !publisher.after_row(first).updated(second).saturated().difference(
            publisher.after_row(first).warned_saturated,
        ).contains(i),
{
}

/// A field that no row ever named is sent as zero.
pub proof fn law_unsent_field_is_zero(
    schema: Seq<FieldView>,
    fingerprint: u32,
    topic: Seq<char>,
    reliable: bool,
    map: Map<Seq<char>, Double>,
    i: int,
)
    requires
        0 <= i < schema.len(),
        !map.contains_key(schema[i].name),
    ensures
        carried_forward(
            schema_names(schema),
            PublisherView::initial(schema, fingerprint, topic, reliable).last_values,
            map,
        )[i] == (Double { bits: 0 }),
{
    assert(schema_names(schema)[i] == schema[i].name);
}

/// A row as it was received.
pub struct DataSample {
    /// Sender time.
    pub timestamp_us: u64,
    /// The values in the order of the schema.
    pub values: Vec<Double>,
    /// The values by field.
    pub fields: FieldMap<Double>,
}

/// What a received row says.
#[verifier::ext_equal]
pub struct SampleView {
    pub timestamp_us: u64,
    pub values: Seq<Double>,
    pub fields: Map<Seq<char>, Double>,
}

impl View for DataSample {
    type V = SampleView;

    open spec fn view(&self) -> SampleView {
        SampleView {
            timestamp_us: self.timestamp_us,
            values: self.values@,
            fields: self.fields@,
        }
    }
}

/// The row with these values.
pub open spec fn sample_of(
    timestamp_us: u64,
    schema: Seq<FieldView>,
    values: Seq<Double>,
) -> SampleView {
    SampleView {
        timestamp_us,
        values,
        fields: collect(paired(schema_names(schema), values)),
    }
}

/// Why a row could not be read.
#[derive(Debug)]
pub enum DecodeError {
    /// The sender has another schema.
    SchemaMismatch { expected: u32, got: u32 },
    /// The bytes are no row.
    Malformed(String),
}

/// The latest value of something received, together with the schema mismatches that were
/// reported. The latest value wins and can be looked at any number of times.
pub struct DataSlots {
    latest: Option<DataSample>,
    warned_mismatches: Vec<u32>,
}

/// What the slots of a stream hold.
#[verifier::ext_equal]
pub struct SlotsView {
    pub latest: Option<SampleView>,
    pub warned_mismatches: Seq<u32>,
}

impl View for DataSlots {
    type V = SlotsView;

    closed spec fn view(&self) -> SlotsView {
        SlotsView {
            latest: match self.latest {
                Some(sample) => Some(sample@),
                None => None,
            },
            warned_mismatches: self.warned_mismatches@,
        }
    }
}

/// The warning about a sender with another schema.
pub open spec fn mismatch_text(topic: Seq<char>, expected: u32, got: u32) -> Seq<char> {
    "topic '"@ + topic + "': dropping packet with schema fingerprint 0x"@ + hex(got as nat, 8)
        + " (expected 0x"@ + hex(expected as nat, 8)
        + "); peer's schema disagrees with ours"@
}

impl DataSlots {
    pub fn new() -> (slots: DataSlots)
        ensures
            slots@ == (SlotsView { latest: None, warned_mismatches: Seq::empty() }),
    {
        let slots = DataSlots { latest: None, warned_mismatches: Vec::new() };
        assert(slots@.warned_mismatches =~= Seq::empty());
        slots
    }

    /// The row that is about to be delivered: it is shown to the callback first and stored
    /// then.
    pub fn sample(timestamp_us: u64, schema: &[FieldSpec], values: Vec<Double>) -> (sample:
        DataSample)
        ensures
            sample@ == sample_of(timestamp_us, schema_view(schema@), values@),
    {
        let names: Vec<String> = field_names(schema);
        let fields: FieldMap<Double> = to_field_map(names.as_slice(), values.as_slice());
        DataSample { timestamp_us, values, fields }
    }

    /// Makes a row the latest one.
    pub fn deliver(&mut self, sample: DataSample)
        ensures
            final(self)@ == (SlotsView { latest: Some(sample@), ..old(self)@ }),
    {
        self.latest = Some(sample);
    }

    /// The latest row, if any arrived since the last clear.
    pub fn latest(&self) -> (latest: Option<&DataSample>)
        ensures
            match latest {
                Some(sample) => self@.latest == Some(sample@),
                None => self@.latest is None,
            },
    {
        self.latest.as_ref()
    }

    /// Forgets the latest row.
    pub fn clear(&mut self)
        ensures
            final(self)@ == (SlotsView { latest: None, ..old(self)@ }),
    {
        self.latest = None;
    }

    /// The warning about a sender with another schema, the first time that its fingerprint is
    /// seen.
    pub fn warn_mismatch(&mut self, topic: &str, expected: u32, got: u32) -> (warning: Option<
        String,
    >)
        ensures
            old(self)@.warned_mismatches.contains(got) ==> warning is None && final(self)@ == old(
                self,
            )@,
            !old(self)@.warned_mismatches.contains(got) ==> {
                &&& warning is Some
                &&& warning->0@ == mismatch_text(topic@, expected, got)
                &&& final(self)@ == (SlotsView {
                    warned_mismatches: old(self)@.warned_mismatches.push(got),
                    ..old(self)@
                })
            },
    {
        let mut i: usize = 0;
        while i < self.warned_mismatches.len()
            invariant
                self == old(self),
                i <= self.warned_mismatches@.len(),
                forall|j: int| 0 <= j < i ==> #[trigger] self.warned_mismatches@[j] != got,
            decreases self.warned_mismatches@.len() - i,
        {
            if self.warned_mismatches[i] == got {
                assert(self@.warned_mismatches[i as int] == got);
                return None;
            }
            i += 1;
        }
        self.warned_mismatches.push(got);
        let mut text: String = crate::error::joined("topic '", topic);
        text.append("': dropping packet with schema fingerprint 0x");
        push_hex(&mut text, got, 8);
        text.append(" (expected 0x");
        push_hex(&mut text, expected, 8);
        text.append("); peer's schema disagrees with ours");
        Some(text)
    }
}

/// Which stream a packet belongs to.
#[derive(Debug, Clone, Copy, PartialEq, Eq, Structural)]
pub enum DataStream {
    State,
    Action,
}

/// Where a packet goes.
#[derive(Debug, Clone, Copy, PartialEq, Eq, Structural)]
pub enum Route {
    /// To the round-trip measurement.
    Rtt,
    /// To a stream of rows.
    Stream(DataStream),
    /// Nowhere: the topic is not ours, or not ours to receive.
    Ignored,
}

/// Where a packet goes: robots receive actions, operators receive states, both measure the
/// round trip.
pub open spec fn route_of(role: Role, topic: Seq<char>) -> Route {
    if topic == RTT_TOPIC@ {
        Route::Rtt
    } else if role == Role::Robot && topic == ACTION_TOPIC@ {
        Route::Stream(DataStream::Action)
    } else if role == Role::Operator && topic == STATE_TOPIC@ {
        Route::Stream(DataStream::State)
    } else {
        Route::Ignored
    }
}

/// Where a packet goes.
pub fn route(role: Role, topic: &str) -> (route: Route)
    ensures
        route == route_of(role, topic@),
{
    if same_text(topic, RTT_TOPIC) {
        return Route::Rtt;
    }
    match role {
        Role::Robot => if same_text(topic, ACTION_TOPIC) {
            Route::Stream(DataStream::Action)
        } else {
            Route::Ignored
        },
        Role::Operator => if same_text(topic, STATE_TOPIC) {
            Route::Stream(DataStream::State)
        } else {
            Route::Ignored
        },
    }
}

/// The fingerprints of two schemas: that of the receiver, and that of the sender, which its
/// packets carry.
#[derive(Debug, Clone, Copy, PartialEq, Eq, Structural)]
pub struct Fingerprints {
    pub local: u32,
    pub carried: u32,
}

/// The two schemas differ.
pub open spec fn differ(fingerprints: Option<Fingerprints>) -> bool {
    fingerprints matches Some(f) && f.local != f.carried
}

impl SlotsView {
    /// The slots once another schema was met.
    pub open spec fn met(self, got: u32) -> SlotsView {
        if self.warned_mismatches.contains(got) {
            self
        } else {
            SlotsView { warned_mismatches: self.warned_mismatches.push(got), ..self }
        }
    }
}

/// What a received packet turned out to be.
pub enum Incoming {
    Rtt,
    Row(DataStream, DataSample),
    /// A row of another schema; the warning comes once for every fingerprint.
    Mismatch(DataStream, Option<String>),
    /// No row at all, with the warning.
    Malformed(DataStream, String),
    Ignored,
}

/// The warning about a packet that is no row.
pub open spec fn malformed_text(stream: DataStream, reason: Seq<char>) -> Seq<char> {
    match stream {
        DataStream::Action => "failed to deserialize action payload: "@ + reason,
        DataStream::State => "failed to deserialize state payload: "@ + reason,
    }
}

/// Takes over the result of reading a packet of a stream: a row is made ready for delivery,
/// another schema is reported once, anything else is reported every time.
pub fn accept_row(
    stream: DataStream,
    decoded: Result<(u64, Vec<Double>), DecodeError>,
    topic: &str,
    schema: &[FieldSpec],
    slots: &mut DataSlots,
) -> (incoming: Incoming)
    ensures
        match decoded {
            Ok((timestamp_us, values)) => {
                &&& final(slots)@ == old(slots)@
                &&& incoming matches Incoming::Row(s, sample)
                &&& s == stream
                &&& sample@ == sample_of(timestamp_us, schema_view(schema@), values@)
            },
            Err(DecodeError::SchemaMismatch { expected, got }) => {
                &&& final(slots)@ == old(slots)@.met(got)
                &&& mismatch_told(stream, topic@, expected, got, old(slots)@, incoming)
            },
            Err(DecodeError::Malformed(reason)) => {
                &&& final(slots)@ == old(slots)@
                &&& incoming matches Incoming::Malformed(s, warning)
                &&& s == stream
                &&& warning@ == malformed_text(stream, reason@)
            },
        },
{
    match decoded {
        Ok((timestamp_us, values)) => Incoming::Row(
            stream,
            DataSlots::sample(timestamp_us, schema, values),
        ),
        Err(DecodeError::SchemaMismatch { expected, got }) => {
            let warning: Option<String> = slots.warn_mismatch(topic, expected, got);
            Incoming::Mismatch(stream, warning)
        },
        Err(DecodeError::Malformed(reason)) => Incoming::Malformed(
            stream,
            match stream {
                DataStream::Action => crate::error::joined(
                    "failed to deserialize action payload: ",
                    reason.as_str(),
                ),
                DataStream::State => crate::error::joined(
                    "failed to deserialize state payload: ",
                    reason.as_str(),
                ),
            },
        ),
    }
}

/// A packet of another schema is told of, with a warning the first time.
pub open spec fn mismatch_told(
    stream: DataStream,
    topic: Seq<char>,
    expected: u32,
    got: u32,
    slots: SlotsView,
    incoming: Incoming,
) -> bool {
    &&& incoming matches Incoming::Mismatch(s, warning)
    &&& s == stream
    &&& match warning {
        None => slots.warned_mismatches.contains(got),
        Some(text) => !slots.warned_mismatches.contains(got) && text@ == mismatch_text(
            topic,
            expected,
            got,
        ),
    }
}

/// A packet of a stream was read: a row of another schema is no row, whatever its bytes are.
pub open spec fn packet_received(
    stream: DataStream,
    schema: Seq<FieldView>,
    payload: Seq<u8>,
    topic: Seq<char>,
    fingerprints: Option<Fingerprints>,
    slots: SlotsView,
    incoming: Incoming,
) -> bool {
    if differ(fingerprints) {
        mismatch_told(
            stream,
            topic,
            fingerprints->0.local,
            fingerprints->0.carried,
            slots,
            incoming,
        )
    } else {
        row_received(stream, schema, payload, incoming)
    }
}

/// The slots of a stream after a packet was read. What was received last stays.
pub open spec fn slots_after(
    slots: SlotsView,
    fingerprints: Option<Fingerprints>,
) -> SlotsView {
    if differ(fingerprints) {
        slots.met(fingerprints->0.carried)
    } else {
        slots
    }
}

/// A received packet came out as a row of the stream, or as no row because its length is
/// wrong.
pub open spec fn row_received(
    stream: DataStream,
    schema: Seq<FieldView>,
    payload: Seq<u8>,
    incoming: Incoming,
) -> bool {
    let dtypes = schema_dtypes(schema);
    let expected = 8 + payload_size(dtypes);
    if payload.len() == expected {
        &&& incoming matches Incoming::Row(s, sample)
        &&& s == stream
        &&& row_decodes_to(payload, dtypes, sample.timestamp_us, sample.values@)
        &&& sample@ == sample_of(sample.timestamp_us, schema, sample.values@)
    } else {
        &&& incoming matches Incoming::Malformed(s, warning)
        &&& s == stream
        &&& warning@ == malformed_text(
            stream,
            error_text(ErrorView::Deserialization(length_text(expected, payload.len()))),
        )
    }
}

/// Reads a received packet. `fingerprints` are those of the schemas of both ends, of a packet
/// that carries one.
pub fn handle_data_received(
    payload: &[u8],
    topic: &str,
    fingerprints: Option<Fingerprints>,
    role: Role,
    action_schema: &[FieldSpec],
    state_schema: &[FieldSpec],
    action: &mut DataSlots,
    state: &mut DataSlots,
) -> (incoming: Incoming)
    ensures
        final(action)@ == if route_of(role, topic@) == Route::Stream(DataStream::Action) {
            slots_after(old(action)@, fingerprints)
        } else {
            old(action)@
        },
        final(state)@ == if route_of(role, topic@) == Route::Stream(DataStream::State) {
            slots_after(old(state)@, fingerprints)
        } else {
            old(state)@
        },
        match route_of(role, topic@) {
            Route::Rtt => incoming is Rtt,
            Route::Ignored => incoming is Ignored,
            Route::Stream(DataStream::Action) => packet_received(
                DataStream::Action,
                schema_view(action_schema@),
                payload@,
                topic@,
                fingerprints,
                old(action)@,
                incoming,
            ),
            Route::Stream(DataStream::State) => packet_received(
                DataStream::State,
                schema_view(state_schema@),
                payload@,
                topic@,
                fingerprints,
                old(state)@,
                incoming,
            ),
        },
{
    match route(role, topic) {
        Route::Rtt => Incoming::Rtt,
        Route::Ignored => Incoming::Ignored,
        Route::Stream(DataStream::Action) => {
            let decoded = decode_row(payload, fingerprints, action_schema);
            accept_row(DataStream::Action, decoded, topic, action_schema, action)
        },
        Route::Stream(DataStream::State) => {
            let decoded = decode_row(payload, fingerprints, state_schema);
            accept_row(DataStream::State, decoded, topic, state_schema, state)
        },
    }
}

fn decode_row(
    payload: &[u8],
    fingerprints: Option<Fingerprints>,
    schema: &[FieldSpec],
) -> (decoded: Result<(u64, Vec<Double>), DecodeError>)
    ensures
        ({
            let dtypes = schema_dtypes(schema_view(schema@));
            let expected = 8 + payload_size(dtypes);
            match decoded {
                Ok((timestamp_us, values)) => {
                    &&& !differ(fingerprints)
                    &&& payload@.len() == expected
                    &&& row_decodes_to(payload@, dtypes, timestamp_us, values@)
                },
                Err(DecodeError::Malformed(reason)) => {
                    &&& !differ(fingerprints)
                    &&& payload@.len() != expected
                    &&& reason@ == error_text(
                        ErrorView::Deserialization(length_text(expected, payload@.len())),
                    )
                },
                Err(DecodeError::SchemaMismatch { expected, got }) => differ(fingerprints)
                    && fingerprints == Some(Fingerprints { local: expected, carried: got }),
            }
        }),
{
    if let Some(f) = fingerprints {
        if f.local != f.carried {
            return Err(DecodeError::SchemaMismatch { expected: f.local, got: f.carried });
        }
    }
    let dtypes: Vec<DType> = field_dtypes(schema);
    match deserialize_values(payload, dtypes.as_slice()) {
        Ok(row) => Ok(row),
        Err(e) => Err(DecodeError::Malformed(e.message())),
    }
}

/// The warning about another schema names the topic, then the fingerprint that came, then the one
/// that was expected, and ends there but for words.
pub proof fn law_mismatch_warning_tells(topic: Seq<char>, expected: u32, got: u32)
    ensures
        ({
            let text = mismatch_text(topic, expected, got);
            exists|a: int, b: int, c: int| #[trigger]
                stands_at(text, topic, a) && #[trigger] stands_at(text, hex(got as nat, 8), b)
                    && #[trigger] stands_at(text, hex(expected as nat, 8), c) && a + topic.len()
                    <= b && b + 8 <= c
        }),
{
    let text = mismatch_text(topic, expected, got);
    let first = "topic '"@;
    let second = "': dropping packet with schema fingerprint 0x"@;
    let third = " (expected 0x"@;
    let fourth = "); peer's schema disagrees with ours"@;
    let came = hex(got as nat, 8);
    let ours = hex(expected as nat, 8);
    crate::text::law_hex_numerals(got as nat, 8);
    crate::text::law_hex_numerals(expected as nat, 8);
    crate::text::lemma_stands_at(first, topic, second + came + third + ours + fourth);
    assert(first + topic + (second + came + third + ours + fourth) =~= text);
    crate::text::lemma_stands_at(first + topic + second, came, third + ours + fourth);
    assert(first + topic + second + came + (third + ours + fourth) =~= text);
    crate::text::lemma_stands_at(first + topic + second + came + third, ours, fourth);
    assert(stands_at(text, topic, first.len() as int));
    assert(stands_at(text, came, (first + topic + second).len() as int));
    assert(stands_at(text, ours, (first + topic + second + came + third).len() as int));
}

/// The warning about a packet that is no row ends with the reason and tells the streams apart; that
/// about a full queue names the topic.
pub proof fn law_warnings_tell(stream: DataStream, reason: Seq<char>, topic: Seq<char>)
    ensures
        reason.is_suffix_of(malformed_text(stream, reason)),
        malformed_text(DataStream::Action, reason) != malformed_text(DataStream::State, reason),
        exists|a: int| stands_at(queue_full_text(topic), topic, a),
{
    reveal_strlit("failed to deserialize action payload: ");
    reveal_strlit("failed to deserialize state payload: ");
    let text = malformed_text(stream, reason);
    assert(reason =~= text.subrange(text.len() - reason.len(), text.len() as int));
    let first = "publish queue full for topic '"@;
    let behind = "' (cap="@ + decimal(PUBLISH_QUEUE_CAP as nat) + "); dropping packet"@;
    crate::text::lemma_stands_at(first, topic, behind);
    assert(first + topic + behind =~= queue_full_text(topic));
}

} // verus!
