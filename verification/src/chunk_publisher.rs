//! Sending declared chunks of actions.

use vstd::prelude::*;

use crate::config::{copy_schema, ChunkSpec, ChunkSpecView, FieldView};
use crate::data::{lists_once, note_unknown_keys, strangers, text_set};
use crate::double::Double;
use crate::field_map::{collect, FieldMap};
use crate::types::texts;

verus! {

/// The column of a field as it is sent: what was given for the first `horizon` steps, and zero
/// for steps that nothing was given for.
pub open spec fn column(
    data: Map<Seq<char>, Vec<Double>>,
    name: Seq<char>,
    horizon: nat,
) -> Seq<Double> {
    Seq::new(
        horizon,
        |t: int|
            if data.contains_key(name) && t < data[name]@.len() {
                data[name]@[t]
            } else {
                Double { bits: 0 }
            },
    )
}

/// The columns of a chunk in the order of its fields.
pub open spec fn columns(
    data: Map<Seq<char>, Vec<Double>>,
    fields: Seq<FieldView>,
    horizon: nat,
) -> Seq<Seq<Double>> {
    fields.map_values(|f: FieldView| column(data, f.name, horizon))
}

/// The columns as they are held.
pub open spec fn table_view(table: Seq<Vec<Double>>) -> Seq<Seq<Double>> {
    table.map_values(|c: Vec<Double>| c@)
}

/// A chunk to be sent, and what is to be said about it.
pub struct OutgoingChunk {
    pub name: String,
    /// One column for every field, each as long as the horizon.
    pub columns: Vec<Vec<Double>>,
    pub timestamp_us: u64,
    /// The time of the observation that the chunk answers, to be sent along with it.
    pub in_reply_to_ts_us: Option<u64>,
    /// Names in the data that no field has and that were not reported before.
    pub unknown_keys: Vec<String>,
}

/// Sends chunks of one declaration.
pub struct ChunkPublisher {
    declared: ChunkSpec,
    warned_unknown_keys: Vec<String>,
}

/// What a chunk publisher knows.
#[verifier::ext_equal]
pub struct ChunkPublisherView {
    pub declared: ChunkSpecView,
    pub warned_unknown_keys: Set<Seq<char>>,
}

impl View for ChunkPublisher {
    type V = ChunkPublisherView;

    closed spec fn view(&self) -> ChunkPublisherView {
        ChunkPublisherView {
            declared: self.declared@,
            warned_unknown_keys: text_set(self.warned_unknown_keys@),
        }
    }
}

impl ChunkPublisherView {
    /// A publisher that has sent nothing yet.
    pub open spec fn initial(declared: ChunkSpecView) -> ChunkPublisherView {
        ChunkPublisherView { declared, warned_unknown_keys: Set::empty() }
    }

    /// The publisher after a chunk.
    pub open spec fn after_chunk(self, data: Map<Seq<char>, Vec<Double>>) -> ChunkPublisherView {
        ChunkPublisherView {
            warned_unknown_keys: self.warned_unknown_keys.union(
                strangers(data.dom(), self.declared.fields),
            ),
            ..self
        }
    }
}

/// The chunk that a publisher makes of named columns.
pub open spec fn chunk_sent(
    publisher: ChunkPublisherView,
    data: Map<Seq<char>, Vec<Double>>,
    timestamp_us: Option<u64>,
    in_reply_to_ts_us: Option<u64>,
    now_us: u64,
    chunk: OutgoingChunk,
) -> bool {
    &&& chunk.name@ == publisher.declared.name
    &&& table_view(chunk.columns@) == columns(
        data,
        publisher.declared.fields,
        publisher.declared.horizon as nat,
    )
    &&& chunk.timestamp_us == match timestamp_us {
        Some(ts) => ts,
        None => now_us,
    }
    &&& chunk.in_reply_to_ts_us == in_reply_to_ts_us
    &&& lists_once(
        texts(chunk.unknown_keys@),
        strangers(data.dom(), publisher.declared.fields).difference(
            publisher.warned_unknown_keys,
        ),
    )
}

/// The column of a field, padded or cut to the horizon.
fn fit_column(data: &FieldMap<Vec<Double>>, name: &str, horizon: u32) -> (fitted: Vec<Double>)
    ensures
        fitted@ == column(data@, name@, horizon as nat),
{
    let mut fitted: Vec<Double> = Vec::new();
    let given: Option<&Vec<Double>> = data.get(name);
    let mut t: u32 = 0;
    while t < horizon
        invariant
            t <= horizon,
            fitted@.len() == t,
            match given {
                Some(c) => data@.contains_key(name@) && *c == data@[name@],
                None => !data@.contains_key(name@),
            },
            forall|k: int|
                0 <= k < t ==> #[trigger] fitted@[k] == column(data@, name@, horizon as nat)[k],
        decreases horizon - t,
    {
        let value: Double = match given {
            Some(c) => if (t as u64) < c.len() as u64 {
                c[t as usize]
            } else {
                Double::from_bits(0)
            },
            None => Double::from_bits(0),
        };
        fitted.push(value);
        t += 1;
    }
    assert(fitted@ =~= column(data@, name@, horizon as nat));
    fitted
}

impl ChunkPublisher {
    pub fn new(declared: &ChunkSpec) -> (publisher: ChunkPublisher)
        ensures
            publisher@ == ChunkPublisherView::initial(declared@),
    {
        let publisher = ChunkPublisher {
            declared: ChunkSpec::new(
                declared.name.clone(),
                declared.horizon,
                copy_schema(declared.fields.as_slice()),
            ),
            warned_unknown_keys: Vec::new(),
        };
        assert(publisher@.warned_unknown_keys =~= Set::empty());
        publisher
    }

    /// The chunk for named columns, which is stamped with `timestamp_us` or, without one, with
    /// the current time. Columns that are too short are filled up with zeros, columns that are
    /// too long are cut, and names that no field has are left out and reported once each.
    pub fn send(
        &mut self,
        data: &FieldMap<Vec<Double>>,
        timestamp_us: Option<u64>,
        in_reply_to_ts_us: Option<u64>,
        now_us: u64,
    ) -> (chunk: OutgoingChunk)
        ensures
            final(self)@ == old(self)@.after_chunk(data@),
            chunk_sent(
                old(self)@,
                data@,
                timestamp_us,
                in_reply_to_ts_us,
                now_us,
                chunk,
            ),
    {
        let ghost fields = self@.declared.fields;
        let ghost horizon = self@.declared.horizon as nat;
        let mut table: Vec<Vec<Double>> = Vec::new();
        let mut i: usize = 0;
        while i < self.declared.fields.len()
            invariant
                *self == *old(self),
                fields == self@.declared.fields,
                fields.len() == self.declared.fields@.len(),
                horizon == self.declared.horizon,
                i <= fields.len(),
                table@.len() == i,
                forall|k: int|
                    0 <= k < i ==> (#[trigger] table@[k])@ == column(
                        data@,
                        fields[k].name,
                        horizon,
                    ),
            decreases fields.len() - i,
        {
            assert(fields[i as int] == self.declared.fields@[i as int]@);
            table.push(
                fit_column(data, self.declared.fields[i].name.as_str(), self.declared.horizon),
            );
            i += 1;
        }
        assert(table_view(table@) =~= columns(data@, fields, horizon));
        let unknown_keys: Vec<String> = note_unknown_keys(
            data,
            self.declared.fields.as_slice(),
            &mut self.warned_unknown_keys,
        );
        OutgoingChunk {
            name: self.declared.name.clone(),
            columns: table,
            timestamp_us: match timestamp_us {
                Some(ts) => ts,
                None => now_us,
            },
            in_reply_to_ts_us,
            unknown_keys,
        }
    }
}

/// What the publishers of a portal know, by name.
pub open spec fn publishers_view(
    publishers: Map<Seq<char>, ChunkPublisher>,
) -> Map<Seq<char>, ChunkPublisherView> {
    publishers.map_values(|p: ChunkPublisher| p@)
}

/// A publisher that has sent nothing for each of the declared chunks, by name.
pub open spec fn publishers_for(
    chunks: Seq<ChunkSpecView>,
) -> Map<Seq<char>, ChunkPublisherView> {
    collect(chunks.map_values(|c: ChunkSpecView| (c.name, ChunkPublisherView::initial(c))))
}

/// There is a publisher for declared chunks only.
pub proof fn lemma_publisher_is_declared(chunks: Seq<ChunkSpecView>, name: Seq<char>)
    requires
        publishers_for(chunks).contains_key(name),
    ensures
        exists|i: int| 0 <= i < chunks.len() && (#[trigger] chunks[i]).name == name,
{
    let named = chunks.map_values(|c: ChunkSpecView| (c.name, ChunkPublisherView::initial(c)));
    crate::field_map::lemma_collect_domain(named, name);
    let i = choose|i: int| crate::field_map::named_at(named, name, i);
    assert(chunks[i].name == name);
}

/// Adds a publisher for each of the declared chunks.
pub fn add_publishers(publishers: &mut FieldMap<ChunkPublisher>, chunks: &[ChunkSpec])
    ensures
        publishers_view(final(publishers)@) == publishers_view(
            old(publishers)@,
        ).union_prefer_right(publishers_for(chunks@.map_values(|c: ChunkSpec| c@))),
{
    let ghost views = chunks@.map_values(|c: ChunkSpec| c@);
    let ghost before = publishers_view(publishers@);
    let mut i: usize = 0;
    proof {
        assert(views.take(0) =~= Seq::empty());
        assert(views.take(0).map_values(
            |c: ChunkSpecView| (c.name, ChunkPublisherView::initial(c)),
        ) =~= Seq::empty());
        assert(before.union_prefer_right(publishers_for(views.take(0))) =~= before);
    }
    while i < chunks.len()
        invariant
            i <= chunks@.len(),
            views == chunks@.map_values(|c: ChunkSpec| c@),
            publishers_view(publishers@) == before.union_prefer_right(
                publishers_for(views.take(i as int)),
            ),
        decreases chunks@.len() - i,
    {
        let ghost held = publishers@;
        let publisher = ChunkPublisher::new(&chunks[i]);
        let ghost view = publisher@;
        publishers.insert(chunks[i].name.clone(), publisher);
        proof {
            let pair = |c: ChunkSpecView| (c.name, ChunkPublisherView::initial(c));
            let named = views.take(i + 1).map_values(pair);
            assert(named.drop_last() =~= views.take(i as int).map_values(pair));
            assert(views[i as int] == chunks@[i as int]@);
            assert(named.last() == (views[i as int].name, view));
            assert(publishers_for(views.take(i + 1)) =~= publishers_for(
                views.take(i as int),
            ).insert(views[i as int].name, view));
            assert(publishers_view(publishers@) =~= publishers_view(held).insert(
                views[i as int].name,
                view,
            ));
            assert(publishers_view(publishers@) =~= before.union_prefer_right(
                publishers_for(views.take(i + 1)),
            ));
        }
        i += 1;
    }
    assert(views.take(i as int) =~= views);
}

/// Every field is sent as one column of the length of the horizon: what fits of the given
/// column, then zeros.
pub proof fn law_columns_fill_horizon(
    data: Map<Seq<char>, Vec<Double>>,
    fields: Seq<FieldView>,
    horizon: nat,
    i: int,
    t: int,
)
    requires
        0 <= i < fields.len(),
        0 <= t < horizon,
    ensures
        columns(data, fields, horizon).len() == fields.len(),
        columns(data, fields, horizon)[i].len() == horizon,
        data.contains_key(fields[i].name) && t < data[fields[i].name]@.len() ==> columns(
            data,
            fields,
            horizon,
        )[i][t] == data[fields[i].name]@[t],
        !data.contains_key(fields[i].name) || t >= data[fields[i].name]@.len() ==> columns(
            data,
            fields,
            horizon,
        )[i][t] == (Double { bits: 0 }),
{
}

/// Every declared chunk has a publisher of its own under its name, which has reported nothing; of
/// two declarations of one name the later counts.
pub proof fn law_each_chunk_has_its_publisher(chunks: Seq<ChunkSpecView>, i: int)
    requires
        0 <= i < chunks.len(),
        forall|j: int| i < j < chunks.len() ==> (#[trigger] chunks[j]).name != chunks[i].name,
    ensures
        publishers_for(chunks).contains_key(chunks[i].name),
        publishers_for(chunks)[chunks[i].name].declared == chunks[i],
        forall|k: Seq<char>|
            !publishers_for(chunks)[chunks[i].name].warned_unknown_keys.contains(k),
{
    let named = chunks.map_values(|c: ChunkSpecView| (c.name, ChunkPublisherView::initial(c)));
    assert forall|j: int| i < j < named.len() implies (#[trigger] named[j]).0 != named[i].0 by {
        assert(chunks[j].name != chunks[i].name);
    }
    crate::field_map::lemma_collect_value(named, i);
}

/// A chunk goes out under the name of its declaration with one column for every declared field, in
/// order, each as long as the horizon: the values that were given for that field's name and zeros
/// for steps that nothing was given for. It is stamped as asked.
pub proof fn law_chunk_is_sent_by_field(
    publisher: ChunkPublisherView,
    data: Map<Seq<char>, Vec<Double>>,
    timestamp_us: Option<u64>,
    in_reply_to_ts_us: Option<u64>,
    now_us: u64,
    chunk: OutgoingChunk,
    i: int,
    t: int,
)
    requires
        chunk_sent(publisher, data, timestamp_us, in_reply_to_ts_us, now_us, chunk),
        0 <= i < publisher.declared.fields.len(),
        0 <= t < publisher.declared.horizon,
    ensures
        ({
            let name = publisher.declared.fields[i].name;
            &&& chunk.name@ == publisher.declared.name
            &&& chunk.columns@.len() == publisher.declared.fields.len()
            &&& chunk.columns@[i]@.len() == publisher.declared.horizon
            &&& data.contains_key(name) && t < data[name]@.len() ==> chunk.columns@[i]@[t]
                == data[name]@[t]
            &&& !data.contains_key(name) || t >= data[name]@.len() ==> chunk.columns@[i]@[t].bits
                == 0
            &&& chunk.timestamp_us == match timestamp_us {
                Some(ts) => ts,
                None => now_us,
            }
            &&& chunk.in_reply_to_ts_us == in_reply_to_ts_us
        }),
{
    assert(table_view(chunk.columns@).len() == chunk.columns@.len());
    assert(table_view(chunk.columns@)[i] == chunk.columns@[i]@);
}

/// A chunk reports exactly the names in its data that no field has and that were not reported
/// before, each once; and what it reports counts as reported from then on.
pub proof fn law_chunk_reports(
    publisher: ChunkPublisherView,
    data: Map<Seq<char>, Vec<Double>>,
    timestamp_us: Option<u64>,
    in_reply_to_ts_us: Option<u64>,
    now_us: u64,
    chunk: OutgoingChunk,
    name: Seq<char>,
)
    requires
        chunk_sent(publisher, data, timestamp_us, in_reply_to_ts_us, now_us, chunk),
    ensures
        ({
            let fields = publisher.declared.fields;
            let declared = exists|j: int|
                0 <= j < fields.len() && (#[trigger] fields[j]).name == name;
            let stranger = data.contains_key(name) && !declared;
            &&& (exists|j: int|
                0 <= j < chunk.unknown_keys@.len() && (#[trigger] chunk.unknown_keys@[j])@ == name)
                <==> stranger && !publisher.warned_unknown_keys.contains(name)
            &&& publisher.after_chunk(data).warned_unknown_keys.contains(name)
                <==> publisher.warned_unknown_keys.contains(name) || stranger
            &&& publisher.after_chunk(data).declared == publisher.declared
        }),
        forall|a: int, b: int|
            0 <= a < b < chunk.unknown_keys@.len() ==> (#[trigger] chunk.unknown_keys@[a])@ != (
            #[trigger] chunk.unknown_keys@[b])@,
{
    let fields = publisher.declared.fields;
    let names = crate::config::schema_names(fields);
    let told = texts(chunk.unknown_keys@);
    if names.contains(name) {
        let j = choose|j: int| 0 <= j < names.len() && names[j] == name;
        assert(fields[j].name == name);
    }
    if exists|j: int| 0 <= j < fields.len() && (#[trigger] fields[j]).name == name {
        let j = choose|j: int| 0 <= j < fields.len() && (#[trigger] fields[j]).name == name;
        assert(names[j] == name);
    }
    assert(strangers(data.dom(), fields).contains(name) <==> data.contains_key(name)
        && !names.contains(name));
    if told.contains(name) {
        let j = choose|j: int| 0 <= j < told.len() && told[j] == name;
        assert(chunk.unknown_keys@[j]@ == name);
    }
    if exists|j: int|
        0 <= j < chunk.unknown_keys@.len() && (#[trigger] chunk.unknown_keys@[j])@ == name {
        let j = choose|j: int|
            0 <= j < chunk.unknown_keys@.len() && (#[trigger] chunk.unknown_keys@[j])@ == name;
        assert(told[j] == name);
    }
    assert(told.contains(name) <==> exists|j: int|
        0 <= j < chunk.unknown_keys@.len() && (#[trigger] chunk.unknown_keys@[j])@ == name);
    assert forall|a: int, b: int| 0 <= a < b < chunk.unknown_keys@.len() implies (
    #[trigger] chunk.unknown_keys@[a])@ != (#[trigger] chunk.unknown_keys@[b])@ by {
        assert(told[a] != told[b]);
    }
}

} // verus!
