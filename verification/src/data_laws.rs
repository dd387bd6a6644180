//! What holds of every row that is sent and received.

use vstd::prelude::*;

use crate::config::{schema_dtypes, schema_names, FieldView};
use crate::data::{
    mismatch_text, packet_received, packet_sent, publisher_after, route_of, row_answer, sample_of,
    slots_after, DataStream, Fingerprints, Incoming, OutgoingPacket, PublisherView, Route,
    SlotsView, ACTION_TOPIC, RTT_TOPIC, STATE_TOPIC,
};
use crate::double::Double;
use crate::dtype::{carried, saturates, DType};
use crate::error::{ErrorView, PortalResult};
use crate::serialization::payload_size;
use crate::typed::{plain_of, TypedValue};
use crate::types::{law_names_find_their_values, Role};

verus! {

/// A row gives every field its value in the order of the schema and by name; of two fields of
/// one name the later is found. It has no other fields.
pub proof fn law_sample_reads_by_name(
    timestamp_us: u64,
    schema: Seq<FieldView>,
    values: Seq<Double>,
    name: Seq<char>,
)
    requires
        values.len() == schema.len(),
    ensures
        ({
            let sample = sample_of(timestamp_us, schema, values);
            &&& sample.timestamp_us == timestamp_us
            &&& sample.values == values
            &&& sample.fields.contains_key(name) <==> exists|j: int|
                0 <= j < schema.len() && (#[trigger] schema[j]).name == name
            &&& forall|i: int|
                0 <= i < schema.len() && schema[i].name == name && (forall|j: int|
                    i < j < schema.len() ==> (#[trigger] schema[j]).name != name)
                    ==> sample.fields[name] == #[trigger] values[i]
        }),
{
    let names = schema_names(schema);
    let sample = sample_of(timestamp_us, schema, values);
    law_names_find_their_values(names, values, name);
    if exists|j: int| 0 <= j < schema.len() && (#[trigger] schema[j]).name == name {
        let j = choose|j: int| 0 <= j < schema.len() && (#[trigger] schema[j]).name == name;
        assert(names[j] == name);
    }
    if sample.fields.contains_key(name) {
        let j = choose|j: int|
            0 <= j < names.len() && j < values.len() && #[trigger] names[j] == name;
        assert(schema[j].name == name);
    }
    assert forall|i: int|
        0 <= i < schema.len() && schema[i].name == name && (forall|j: int|
            i < j < schema.len() ==> (#[trigger] schema[j]).name
                != name) implies sample.fields[name] == #[trigger] values[i] by {
        assert(names[i] == name);
        assert forall|j: int| i < j < names.len() && j < values.len() implies #[trigger] names[j]
            != name by {
            assert(schema[j].name != name);
        }
    }
}

/// A field that a row names takes the value of the row, and a field that it leaves out keeps the
/// value it was last sent with. Nothing else about a publisher changes but what it has reported.
pub proof fn law_row_updates_named_fields(
    publisher: PublisherView,
    row: Map<Seq<char>, Double>,
    i: int,
)
    requires
        publisher.last_values.len() == publisher.schema.len(),
        0 <= i < publisher.schema.len(),
    ensures
        ({
            let after = publisher.after_row(row);
            let name = publisher.schema[i].name;
            &&& after.last_values.len() == publisher.schema.len()
            &&& row.contains_key(name) ==> after.last_values[i] == row[name]
            &&& !row.contains_key(name) ==> after.last_values[i] == publisher.last_values[i]
            &&& after.schema == publisher.schema
            &&& after.fingerprint == publisher.fingerprint
            &&& after.topic == publisher.topic
            &&& after.reliable == publisher.reliable
        }),
{
    assert(schema_names(publisher.schema)[i] == publisher.schema[i].name);
}

/// Bringing the last values up to date with a row gives a named field the value of the row and
/// leaves every other one as it was.
pub proof fn law_carry_forward_by_field(
    names: Seq<Seq<char>>,
    last: Seq<Double>,
    row: Map<Seq<char>, Double>,
    i: int,
)
    requires
        0 <= i < last.len(),
    ensures
        crate::data::carried_forward(names, last, row).len() == last.len(),
        i < names.len() && row.contains_key(names[i]) ==> crate::data::carried_forward(
            names,
            last,
            row,
        )[i] == row[names[i]],
        i >= names.len() || !row.contains_key(names[i]) ==> crate::data::carried_forward(
            names,
            last,
            row,
        )[i] == last[i],
{
}

/// A new publisher has sent zeros and reported nothing.
pub proof fn law_new_publisher_is_blank(
    schema: Seq<FieldView>,
    fingerprint: u32,
    topic: Seq<char>,
    reliable: bool,
)
    ensures
        ({
            let publisher = PublisherView::initial(schema, fingerprint, topic, reliable);
            &&& publisher.schema == schema
            &&& publisher.fingerprint == fingerprint
            &&& publisher.topic == topic
            &&& publisher.reliable == reliable
            &&& publisher.last_values.len() == schema.len()
            &&& forall|i: int|
                0 <= i < schema.len() ==> (#[trigger] publisher.last_values[i]).bits == 0
            &&& forall|i: int| !publisher.warned_saturated.contains(i)
            &&& forall|k: Seq<char>| !publisher.warned_unknown_keys.contains(k)
        }),
{
}

/// A packet is labelled as its publisher was told: with its topic, its reliability, the
/// fingerprint of its schema and the observation that the row answers.
pub proof fn law_packet_is_labelled(
    publisher: PublisherView,
    row: Map<Seq<char>, Double>,
    timestamp_us: Option<u64>,
    in_reply_to_ts_us: Option<u64>,
    now_us: u64,
    packet: OutgoingPacket,
)
    requires
        packet_sent(publisher, row, timestamp_us, in_reply_to_ts_us, now_us, packet),
    ensures
        packet.topic@ == publisher.topic,
        packet.reliable == publisher.reliable,
        packet.fingerprint == publisher.fingerprint,
        packet.in_reply_to_ts_us == in_reply_to_ts_us,
{
}

/// A packet reports exactly the names in its row that no field has and that were not reported
/// before, and exactly the fields that it sends out of range for the first time; and what it
/// reports counts as reported from then on.
pub proof fn law_packet_reports(
    publisher: PublisherView,
    row: Map<Seq<char>, Double>,
    timestamp_us: Option<u64>,
    in_reply_to_ts_us: Option<u64>,
    now_us: u64,
    packet: OutgoingPacket,
    name: Seq<char>,
    i: usize,
)
    requires
        publisher.last_values.len() == publisher.schema.len(),
        packet_sent(publisher, row, timestamp_us, in_reply_to_ts_us, now_us, packet),
    ensures
        ({
            let declared = exists|j: int|
                0 <= j < publisher.schema.len() && (#[trigger] publisher.schema[j]).name == name;
            &&& (exists|j: int|
                0 <= j < packet.unknown_keys@.len() && (#[trigger] packet.unknown_keys@[j])@
                    == name) <==> row.contains_key(name) && !declared
                && !publisher.warned_unknown_keys.contains(name)
            &&& publisher.after_row(row).warned_unknown_keys.contains(name)
                <==> publisher.warned_unknown_keys.contains(name) || row.contains_key(name)
                && !declared
        }),
        ({
            let out_of_range = i < publisher.schema.len() && saturates(
                publisher.schema[i as int].dtype,
                if row.contains_key(publisher.schema[i as int].name) {
                    row[publisher.schema[i as int].name]
                } else {
                    publisher.last_values[i as int]
                },
            );
            &&& packet.saturated@.contains(i) <==> out_of_range
                && !publisher.warned_saturated.contains(i as int)
            &&& publisher.after_row(row).warned_saturated.contains(i as int)
                <==> publisher.warned_saturated.contains(i as int) || out_of_range
        }),
        forall|a: int, b: int|
            0 <= a < b < packet.unknown_keys@.len() ==> (#[trigger] packet.unknown_keys@[a])@ != (
            #[trigger] packet.unknown_keys@[b])@,
        forall|a: int, b: int|
            0 <= a < b < packet.saturated@.len() ==> #[trigger] packet.saturated@[a]
                != #[trigger] packet.saturated@[b],
{
    let names = schema_names(publisher.schema);
    let told = crate::types::texts(packet.unknown_keys@);
    assert(names.contains(name) <==> exists|j: int|
        0 <= j < publisher.schema.len() && (#[trigger] publisher.schema[j]).name == name) by {
        if names.contains(name) {
            let j = choose|j: int| 0 <= j < names.len() && names[j] == name;
            assert(publisher.schema[j].name == name);
        }
        if exists|j: int|
            0 <= j < publisher.schema.len() && (#[trigger] publisher.schema[j]).name == name {
            let j = choose|j: int|
                0 <= j < publisher.schema.len() && (#[trigger] publisher.schema[j]).name == name;
            assert(names[j] == name);
        }
    }
    assert(told.contains(name) <==> exists|j: int|
        0 <= j < packet.unknown_keys@.len() && (#[trigger] packet.unknown_keys@[j])@ == name) by {
        if told.contains(name) {
            let j = choose|j: int| 0 <= j < told.len() && told[j] == name;
            assert(packet.unknown_keys@[j]@ == name);
        }
        if exists|j: int|
            0 <= j < packet.unknown_keys@.len() && (#[trigger] packet.unknown_keys@[j])@ == name {
            let j = choose|j: int|
                0 <= j < packet.unknown_keys@.len() && (#[trigger] packet.unknown_keys@[j])@
                    == name;
            assert(told[j] == name);
        }
    }
    assert(publisher.unknown_keys(row).contains(name) <==> row.contains_key(name)
        && !names.contains(name));
    assert forall|a: int, b: int| 0 <= a < b < packet.unknown_keys@.len() implies (
    #[trigger] packet.unknown_keys@[a])@ != (#[trigger] packet.unknown_keys@[b])@ by {
        assert(told[a] != told[b]);
    }
    if i < publisher.schema.len() {
        law_row_updates_named_fields(publisher, row, i as int);
    }
}

/// Sending goes as the publisher allows: without one the role is told, a value of another type
/// than its field's is refused by the name of the first such field and changes nothing, and any
/// other row goes out with its values.
pub proof fn law_row_is_answered(
    publisher: Option<PublisherView>,
    role: Role,
    values: Map<Seq<char>, TypedValue>,
    timestamp_us: Option<u64>,
    in_reply_to_ts_us: Option<u64>,
    now_us: u64,
    packet: PortalResult<OutgoingPacket>,
)
    requires
        row_answer(
            publisher,
            role,
            values,
            timestamp_us,
            in_reply_to_ts_us,
            now_us,
            packet,
        ),
    ensures
        publisher is None ==> {
            &&& packet matches Err(e)
            &&& e@ == ErrorView::WrongRole(role)
            &&& publisher_after(publisher, values) is None
        },
        publisher matches Some(p) ==> {
            &&& packet is Err <==> exists|i: int|
                0 <= i < p.schema.len() && values.contains_key((#[trigger] p.schema[i]).name)
                    && values[p.schema[i].name].kind != p.schema[i].dtype
            &&& forall|i: int|
                0 <= i < p.schema.len() && values.contains_key((#[trigger] p.schema[i]).name)
                    && values[p.schema[i].name].kind != p.schema[i].dtype && (forall|j: int|
                    0 <= j < i && values.contains_key((#[trigger] p.schema[j]).name)
                        ==> values[p.schema[j].name].kind == p.schema[j].dtype) ==> {
                    &&& packet matches Err(e)
                    &&& e@ == (ErrorView::DtypeMismatch {
                        field: p.schema[i].name,
                        expected: p.schema[i].dtype,
                        got: crate::dtype::dtype_name(values[p.schema[i].name].kind),
                    })
                }
            &&& packet is Err ==> publisher_after(publisher, values) == publisher
            &&& packet is Ok ==> publisher_after(publisher, values) == Some(
                p.after_row(plain_of(values)),
            )
            &&& packet matches Ok(out) ==> packet_sent(
                p,
                plain_of(values),
                timestamp_us,
                in_reply_to_ts_us,
                now_us,
                out,
            )
        },
{
    if let Some(p) = publisher {
        let marks = crate::typed::mismatches(p.schema, values);
        crate::sync_model::lemma_first_true_none(marks);
        if exists|i: int|
            0 <= i < p.schema.len() && values.contains_key((#[trigger] p.schema[i]).name)
                && values[p.schema[i].name].kind != p.schema[i].dtype {
            let i = choose|i: int|
                0 <= i < p.schema.len() && values.contains_key((#[trigger] p.schema[i]).name)
                    && values[p.schema[i].name].kind != p.schema[i].dtype;
            assert(marks[i]);
        }
        if packet is Err {
            let i = choose|i: int| 0 <= i < marks.len() && #[trigger] marks[i];
            assert(p.schema[i].dtype != values[p.schema[i].name].kind);
        }
        assert forall|i: int|
            0 <= i < p.schema.len() && values.contains_key((#[trigger] p.schema[i]).name)
                && values[p.schema[i].name].kind != p.schema[i].dtype && (forall|j: int|
                0 <= j < i && values.contains_key((#[trigger] p.schema[j]).name)
                    ==> values[p.schema[j].name].kind == p.schema[j].dtype) implies {
            &&& packet matches Err(e)
            &&& e@ == (ErrorView::DtypeMismatch {
                field: p.schema[i].name,
                expected: p.schema[i].dtype,
                got: crate::dtype::dtype_name(values[p.schema[i].name].kind),
            })
        } by {
            assert(marks[i]);
            assert forall|j: int| 0 <= j < i implies !#[trigger] marks[j] by {
                assert(values.contains_key(p.schema[j].name) ==> values[p.schema[j].name].kind
                    == p.schema[j].dtype);
            }
            crate::sync_model::lemma_first_true_is(marks, i);
        }
    }
}

/// What was sent under a name is read under that name: the receiver finds every field that is
/// declared once with the value that the row gave it, or that it was last sent with, as its
/// declared type carries it.
pub proof fn law_field_crosses_by_name(
    publisher: PublisherView,
    row: Map<Seq<char>, Double>,
    timestamp_us: Option<u64>,
    in_reply_to_ts_us: Option<u64>,
    now_us: u64,
    packet: OutgoingPacket,
    stream: DataStream,
    slots: SlotsView,
    incoming: Incoming,
    i: int,
)
    requires
        publisher.last_values.len() == publisher.schema.len(),
        packet_sent(publisher, row, timestamp_us, in_reply_to_ts_us, now_us, packet),
        packet_received(
            stream,
            publisher.schema,
            packet.payload@,
            packet.topic@,
            Some(Fingerprints { local: publisher.fingerprint, carried: packet.fingerprint }),
            slots,
            incoming,
        ),
        0 <= i < publisher.schema.len(),
        forall|j: int|
            i < j < publisher.schema.len() ==> (#[trigger] publisher.schema[j]).name
                != publisher.schema[i].name,
    ensures
        ({
            let name = publisher.schema[i].name;
            &&& incoming matches Incoming::Row(s, sample)
            &&& s == stream
            &&& sample.fields@.contains_key(name)
            &&& sample.fields@[name] == sample.values@[i]
            &&& carried(
                publisher.schema[i].dtype,
                if row.contains_key(name) {
                    row[name]
                } else {
                    publisher.last_values[i]
                },
                sample.fields@[name],
            )
            &&& sample.timestamp_us == match timestamp_us {
                Some(ts) => ts,
                None => now_us,
            }
        }),
{
    crate::portal_laws::law_row_crosses(
        publisher,
        row,
        timestamp_us,
        in_reply_to_ts_us,
        now_us,
        packet,
        stream,
        slots,
        incoming,
    );
    law_row_updates_named_fields(publisher, row, i);
    let sample = incoming->Row_1;
    let name = publisher.schema[i].name;
    law_sample_reads_by_name(sample.timestamp_us, publisher.schema, sample.values@, name);
    assert(sample@ == sample_of(sample.timestamp_us, publisher.schema, sample.values@));
    assert(sample@.fields[name] == sample.values@[i]);
}

/// A packet goes by its topic and the role of the receiver alone: round trips to both roles,
/// actions to robots, states to operators, and everything else nowhere.
pub proof fn law_topics_route(role: Role, topic: Seq<char>)
    ensures
        route_of(role, topic) == Route::Rtt <==> topic == RTT_TOPIC@,
        route_of(role, topic) == Route::Stream(DataStream::Action) <==> topic == ACTION_TOPIC@
            && role == Role::Robot,
        route_of(role, topic) == Route::Stream(DataStream::State) <==> topic == STATE_TOPIC@
            && role == Role::Operator,
{
    crate::portal_laws::law_roles_complement();
}

/// The widths of the fields add up.
pub proof fn law_widths_add_up(schema: Seq<DType>, dtype: DType)
    ensures
        payload_size(Seq::<DType>::empty()) == 0,
        payload_size(schema.push(dtype)) == payload_size(schema) + match dtype {
            DType::F64 => 8nat,
            DType::F32 => 4,
            DType::I32 => 4,
            DType::U32 => 4,
            DType::I16 => 2,
            DType::U16 => 2,
            DType::I8 => 1,
            DType::U8 => 1,
            DType::Bool => 1,
        },
{
    assert(schema.push(dtype).drop_last() =~= schema);
}

/// A packet of the receiver's own schema, or one that does not say, is a row exactly where it is
/// eight bytes longer than its fields; otherwise it is reported as no row. What was received
/// before stays.
pub proof fn law_length_decides(
    stream: DataStream,
    schema: Seq<FieldView>,
    payload: Seq<u8>,
    topic: Seq<char>,
    fingerprints: Option<Fingerprints>,
    slots: SlotsView,
    incoming: Incoming,
)
    requires
        packet_received(stream, schema, payload, topic, fingerprints, slots, incoming),
        fingerprints matches Some(f) ==> f.local == f.carried,
    ensures
        incoming is Row || incoming is Malformed,
        incoming is Row <==> payload.len() == 8 + payload_size(schema_dtypes(schema)),
        incoming matches Incoming::Row(s, sample) ==> s == stream && sample.values@.len()
            == schema.len(),
        incoming matches Incoming::Malformed(s, warning) ==> s == stream,
        slots_after(slots, fingerprints) == slots,
{
}

/// A sender with another schema is warned about once: the first of its packets brings the
/// warning, and every later one is dropped in silence. What was received before stays.
pub proof fn law_schema_is_warned_once(
    stream: DataStream,
    schema: Seq<FieldView>,
    payload: Seq<u8>,
    topic: Seq<char>,
    local: u32,
    carried: u32,
    slots: SlotsView,
    incoming: Incoming,
    again: Incoming,
)
    requires
        local != carried,
        packet_received(
            stream,
            schema,
            payload,
            topic,
            Some(Fingerprints { local, carried }),
            slots,
            incoming,
        ),
        packet_received(
            stream,
            schema,
            payload,
            topic,
            Some(Fingerprints { local, carried }),
            slots_after(slots, Some(Fingerprints { local, carried })),
            again,
        ),
    ensures
        ({
            let after = slots_after(slots, Some(Fingerprints { local, carried }));
            &&& incoming matches Incoming::Mismatch(s, warning)
            &&& s == stream
            &&& warning is Some <==> !slots.warned_mismatches.contains(carried)
            &&& warning matches Some(text) ==> text@ == mismatch_text(topic, local, carried)
            &&& again matches Incoming::Mismatch(t, silence)
            &&& t == stream
            &&& silence is None
            &&& after.latest == slots.latest
            &&& after.warned_mismatches.contains(carried)
            &&& forall|g: u32|
                g != carried ==> (#[trigger] after.warned_mismatches.contains(g)
                    <==> slots.warned_mismatches.contains(g))
        }),
{
    let after = slots_after(slots, Some(Fingerprints { local, carried }));
    let before = slots.warned_mismatches;
    if !before.contains(carried) {
        assert(after.warned_mismatches[before.len() as int] == carried);
    }
    assert forall|g: u32| g != carried implies (#[trigger] after.warned_mismatches.contains(g)
        <==> before.contains(g)) by {
        if before.contains(g) {
            let j = choose|j: int| 0 <= j < before.len() && before[j] == g;
            assert(after.warned_mismatches[j] == g);
        }
        if after.warned_mismatches.contains(g) {
            let j = choose|j: int|
                0 <= j < after.warned_mismatches.len() && after.warned_mismatches[j] == g;
            assert(before[j] == g);
        }
    }
}

} // verus!
