//! Requests to a server.

use vstd::prelude::*;

use crate::config::{ConfigView, FieldView, PortalConfig};
use crate::data::{packet_sent, publisher_after, OutgoingPacket, PublisherView};
use crate::double::Double;
use crate::error::{error_text, ErrorView, PortalResult};
use crate::ffi::{
    copy_fields, error_record, frame_from_core, observation_from_core, same_frame, variant_name,
    ErrorRecord,
};
use crate::field_map::{collect, FieldMap};
use crate::portal::{Portal, PortalView, VideoRoute};
use crate::server::{
    ConfigEdit, DeclaredFields, FfiConfigView, FfiError, FfiErrorView, FfiPortal, FfiPortalConfig,
    FfiPortalView, FfiResult, FfiServer, HandleObject, ObjectView, ServerView,
};
use crate::text::{decimal, push_decimal};
use crate::typed::{as_declared, plain_of};
use crate::types::{paired, Role};
use crate::video::{check_frame, frame_fault};

verus! {

/// A role as it was asked for.
#[derive(Debug, Clone, Copy, PartialEq, Eq, Structural)]
pub enum RoleCode {
    Known(Role),
    Unknown(i32),
}

/// What is asked of a portal.
pub enum Query {
    Observation,
    Action,
    State,
    VideoFrame(String),
    Metrics,
    ResetMetrics,
}

/// A request.
pub enum Request {
    NewConfig { session: String, role: RoleCode },
    EditConfig { config_handle: u64, edit: ConfigEdit },
    NewPortal { config_handle: u64 },
    Connect { portal_handle: u64, url: String, token: String },
    Disconnect { portal_handle: u64 },
    SendVideoFrame {
        portal_handle: u64,
        track_name: String,
        rgb_data: Vec<u8>,
        width: u32,
        height: u32,
        timestamp_us: Option<u64>,
    },
    SendState { portal_handle: u64, values: FieldMap<Double>, timestamp_us: Option<u64> },
    SendAction { portal_handle: u64, values: FieldMap<Double>, timestamp_us: Option<u64> },
    Ask { portal_handle: u64, query: Query },
    DisposeHandle { handle: u64 },
}

/// The answer to a request.
#[allow(inconsistent_fields)]
pub enum Response {
    NewConfig { handle: u64 },
    ConfigEdited,
    NewPortal { handle: u64, declared: DeclaredFields },
    /// The outcome is told later, under this number.
    Pending { async_id: u64 },
    /// A frame or a row was accepted, or was not.
    Sent { error: Option<ErrorRecord> },
    Observation(Option<crate::ffi::Observation>),
    Values { values: FieldMap<Double>, present: bool },
    VideoFrame(Option<crate::ffi::VideoFrame>),
    /// How full the buffers are; all other counts are kept elsewhere.
    Metrics { video_fill: FieldMap<usize>, state_fill: usize },
    MetricsReset,
    Disposed { existed: bool },
}

/// What remains to be done for a request.
#[allow(inconsistent_fields)]
pub enum Effect {
    Nothing,
    Connect { portal_handle: u64, async_id: u64, url: String, token: String },
    Disconnect { portal_handle: u64, async_id: u64 },
    /// Put the frame on the media path, stamped with this time.
    CaptureFrame { track_name: String, timestamp_us: u64 },
    /// Send the frame as an image of its own.
    EncodeFrame { track_name: String, timestamp_us: Option<u64> },
    Publish(OutgoingPacket),
    ResetMetrics { portal_handle: u64 },
}

/// The numeral of an integer.
pub open spec fn signed_decimal(n: int) -> Seq<char> {
    if n < 0 {
        "-"@ + decimal((-n) as nat)
    } else {
        decimal(n as nat)
    }
}

/// The complaint about a role that is none.
pub open spec fn unknown_role_text(code: i32) -> Seq<char> {
    "unknown role "@ + signed_decimal(code as int)
}

fn unknown_role(code: i32) -> (text: String)
    ensures
        text@ == unknown_role_text(code),
{
    let mut text: String = "unknown role ".to_owned();
    if code < 0 {
        text.append("-");
        push_decimal(&mut text, (-(code as i64)) as u64);
        assert(text@ =~= unknown_role_text(code));
    } else {
        push_decimal(&mut text, code as u64);
    }
    text
}

/// The record says what the error says.
pub open spec fn records(record: Option<ErrorRecord>, e: Option<ErrorView>) -> bool {
    match (record, e) {
        (Some(r), Some(e)) => r.variant@ == variant_name(e) && r.message@ == error_text(e),
        (None, None) => true,
        _ => false,
    }
}

/// The request was refused for this reason and changed nothing.
pub open spec fn refused(
    before: ServerView,
    after: ServerView,
    r: FfiResult<(Response, Effect)>,
    e: FfiErrorView,
) -> bool {
    &&& r matches Err(err)
    &&& err@ == e
    &&& after == before
}

/// A configuration is made.
pub open spec fn answers_new_config(
    before: ServerView,
    session: Seq<char>,
    role: RoleCode,
    after: ServerView,
    r: FfiResult<(Response, Effect)>,
) -> bool {
    match role {
        RoleCode::Unknown(code) => refused(
            before,
            after,
            r,
            FfiErrorView::InvalidRequest(unknown_role_text(code)),
        ),
        RoleCode::Known(role) => {
            &&& r matches Ok((response, effect))
            &&& response == (Response::NewConfig { handle: before.next_id })
            &&& effect is Nothing
            &&& after == before.numbered().stored(
                before.next_id,
                ObjectView::Config(
                    FfiConfigView::initial(ConfigView::initial(session, role)),
                ),
            )
        },
    }
}

/// A configuration is changed.
pub open spec fn answers_edit(
    before: ServerView,
    id: u64,
    edit: ConfigEdit,
    after: ServerView,
    r: FfiResult<(Response, Effect)>,
) -> bool {
    match before.config_fault(id) {
        Some(e) => refused(before, after, r, e),
        None => match before.handles[id]->Config_0.edited(edit) {
            Err(text) => refused(before, after, r, FfiErrorView::Rejected(text)),
            Ok(config) => {
                &&& r matches Ok((response, effect))
                &&& response is ConfigEdited
                &&& effect is Nothing
                &&& after == before.stored(id, ObjectView::Config(config))
            },
        },
    }
}

/// A portal is made from a configuration, which stays as it is.
pub open spec fn answers_new_portal(
    before: ServerView,
    id: u64,
    after: ServerView,
    r: FfiResult<(Response, Effect)>,
) -> bool {
    match before.config_fault(id) {
        Some(e) => refused(before, after, r, e),
        None => {
            let config = before.handles[id]->Config_0;
            &&& r matches Ok((response, effect))
            &&& response matches Response::NewPortal { handle, declared }
            &&& handle == before.next_id
            &&& declared@ == config.declared
            &&& effect is Nothing
            &&& after == before.numbered().stored(
                before.next_id,
                ObjectView::Portal(
                    FfiPortalView {
                        handle: before.next_id,
                        portal: PortalView::initial(config.config),
                        declared: config.declared,
                    },
                ),
            )
        },
    }
}

/// Something is begun that a portal takes its time for.
pub open spec fn answers_pending(
    before: ServerView,
    id: u64,
    after: ServerView,
    r: FfiResult<(Response, Effect)>,
) -> bool {
    match before.portal_fault(id) {
        Some(e) => refused(before, after, r, e),
        None => {
            &&& r matches Ok((response, effect))
            &&& response == (Response::Pending { async_id: before.next_id })
            &&& after == before.numbered()
        },
    }
}

/// A frame is checked and routed.
pub open spec fn answers_frame(
    before: ServerView,
    id: u64,
    track: Seq<char>,
    len: nat,
    width: u32,
    height: u32,
    timestamp_us: Option<u64>,
    now_us: u64,
    after: ServerView,
    r: FfiResult<(Response, Effect)>,
) -> bool {
    match before.portal_fault(id) {
        Some(e) => refused(before, after, r, e),
        None => {
            let portal = before.handles[id]->Portal_0.portal;
            if portal.video_publishers.contains(track) {
                &&& after == before
                &&& r matches Ok((Response::Sent { error }, effect))
                &&& records(error, frame_fault(len, width, height))
                &&& match frame_fault(len, width, height) {
                    Some(_) => effect is Nothing,
                    None => {
                        &&& effect matches Effect::CaptureFrame { track_name, timestamp_us: ts }
                        &&& track_name@ == track
                        &&& ts == match timestamp_us {
                            Some(ts) => ts,
                            None => now_us,
                        }
                    },
                }
            } else if portal.frame_video_publishers.contains(track) {
                &&& after == before
                &&& r matches Ok((Response::Sent { error }, effect))
                &&& error is None
                &&& effect matches Effect::EncodeFrame { track_name, timestamp_us: ts }
                &&& track_name@ == track
                &&& ts == timestamp_us
            } else {
                &&& after == before
                &&& r matches Ok((Response::Sent { error }, effect))
                &&& records(error, Some(portal.video_refusal(track)))
                &&& effect is Nothing
            }
        },
    }
}

/// A row is made into a packet by one of the publishers of a portal, or refused.
pub open spec fn answers_row(
    publisher: Option<PublisherView>,
    schema: Seq<FieldView>,
    refusal: Role,
    values: Map<Seq<char>, Double>,
    timestamp_us: Option<u64>,
    now_us: u64,
    r: FfiResult<(Response, Effect)>,
) -> bool {
    let typed = as_declared(values, schema);
    let fault = match publisher {
        None => Some(ErrorView::WrongRole(refusal)),
        Some(p) => p.refusal(typed),
    };
    &&& r matches Ok((Response::Sent { error }, effect))
    &&& records(error, fault)
    &&& if fault is Some {
        effect is Nothing
    } else {
        &&& effect matches Effect::Publish(packet)
        &&& packet_sent(publisher->0, plain_of(typed), timestamp_us, None, now_us, packet)
    }
}

/// The server with the state publisher of a portal brought up to date.
pub open spec fn after_state(
    before: ServerView,
    id: u64,
    values: Map<Seq<char>, Double>,
) -> ServerView {
    let object = before.handles[id]->Portal_0;
    let typed = as_declared(values, object.portal.config.state_schema);
    before.stored(
        id,
        ObjectView::Portal(
            FfiPortalView {
                portal: PortalView {
                    state_publisher: publisher_after(object.portal.state_publisher, typed),
                    ..object.portal
                },
                ..object
            },
        ),
    )
}

/// The server with the action publisher of a portal brought up to date.
pub open spec fn after_action(
    before: ServerView,
    id: u64,
    values: Map<Seq<char>, Double>,
) -> ServerView {
    let object = before.handles[id]->Portal_0;
    let typed = as_declared(values, object.portal.config.action_schema);
    before.stored(
        id,
        ObjectView::Portal(
            FfiPortalView {
                portal: PortalView {
                    action_publisher: publisher_after(object.portal.action_publisher, typed),
                    ..object.portal
                },
                ..object
            },
        ),
    )
}

/// What a portal answers to a question.
pub open spec fn answers_query(
    portal: PortalView,
    query: Query,
    id: u64,
    response: Response,
    effect: Effect,
) -> bool {
    match query {
        Query::Observation => {
            &&& effect is Nothing
            &&& response matches Response::Observation(o)
            &&& match (o, portal.observation) {
                (Some(a), Some(b)) => {
                    &&& a.timestamp_us == b.timestamp_us
                    &&& a.state@ == b.state
                    &&& a.frames@.dom() == b.frames.dom()
                    &&& forall|k: Seq<char>|
                        b.frames.contains_key(k) ==> same_frame(
                            #[trigger] a.frames@[k],
                            *b.frames[k],
                        )
                },
                (None, None) => true,
                _ => false,
            }
        },
        Query::Action => {
            &&& effect is Nothing
            &&& response matches Response::Values { values, present }
            &&& match portal.action.latest {
                Some(sample) => present && values@ == sample.fields,
                None => !present && values@ == Map::<Seq<char>, Double>::empty(),
            }
        },
        Query::State => {
            &&& effect is Nothing
            &&& response matches Response::Values { values, present }
            &&& match portal.state.latest {
                Some(sample) => present && values@ == sample.fields,
                None => !present && values@ == Map::<Seq<char>, Double>::empty(),
            }
        },
        Query::VideoFrame(track) => {
            &&& effect is Nothing
            &&& response matches Response::VideoFrame(f)
            &&& match f {
                Some(frame) => {
                    &&& portal.frames.contains_key(track@)
                    &&& portal.frames[track@] is Some
                    &&& same_frame(frame, *portal.frames[track@]->0)
                },
                None => portal.frames.contains_key(track@) ==> portal.frames[track@] is None,
            }
        },
        Query::Metrics => {
            &&& effect is Nothing
            &&& response matches Response::Metrics { video_fill, state_fill }
            &&& match portal.sync_buffer {
                Some(sb) => {
                    &&& video_fill@ == collect(
                        paired(
                            sb.names,
                            sb.tracks.map_values(
                                |t: crate::sync_model::TrackView| t.frames.len() as usize,
                            ),
                        ),
                    )
                    &&& state_fill == sb.states.len()
                },
                None => video_fill@ == Map::<Seq<char>, usize>::empty() && state_fill == 0,
            }
        },
        Query::ResetMetrics => {
            &&& response is MetricsReset
            &&& effect == (Effect::ResetMetrics { portal_handle: id })
        },
    }
}

/// What a request comes to.
pub open spec fn answers(
    before: ServerView,
    request: Request,
    now_us: u64,
    after: ServerView,
    r: FfiResult<(Response, Effect)>,
) -> bool {
    match request {
        Request::NewConfig { session, role } => answers_new_config(before, session@, role, after, r),
        Request::EditConfig { config_handle, edit } => answers_edit(
            before,
            config_handle,
            edit,
            after,
            r,
        ),
        Request::NewPortal { config_handle } => answers_new_portal(before, config_handle, after, r),
        Request::Connect { portal_handle, url, token } => {
            &&& answers_pending(before, portal_handle, after, r)
            &&& r matches Ok((response, effect)) ==> effect == (Effect::Connect {
                portal_handle,
                async_id: before.next_id,
                url,
                token,
            })
        },
        Request::Disconnect { portal_handle } => {
            &&& answers_pending(before, portal_handle, after, r)
            &&& r matches Ok((response, effect)) ==> effect == (Effect::Disconnect {
                portal_handle,
                async_id: before.next_id,
            })
        },
        Request::SendVideoFrame { portal_handle, track_name, rgb_data, width, height, timestamp_us } =>
        answers_frame(
            before,
            portal_handle,
            track_name@,
            rgb_data@.len(),
            width,
            height,
            timestamp_us,
            now_us,
            after,
            r,
        ),
        Request::SendState { portal_handle, values, timestamp_us } => match before.portal_fault(
            portal_handle,
        ) {
            Some(e) => refused(before, after, r, e),
            None => {
                &&& answers_row(
                    before.handles[portal_handle]->Portal_0.portal.state_publisher,
                    before.handles[portal_handle]->Portal_0.portal.config.state_schema,
                    Role::Operator,
                    values@,
                    timestamp_us,
                    now_us,
                    r,
                )
                &&& after == after_state(before, portal_handle, values@)
            },
        },
        Request::SendAction { portal_handle, values, timestamp_us } => match before.portal_fault(
            portal_handle,
        ) {
            Some(e) => refused(before, after, r, e),
            None => {
                &&& answers_row(
                    before.handles[portal_handle]->Portal_0.portal.action_publisher,
                    before.handles[portal_handle]->Portal_0.portal.config.action_schema,
                    Role::Robot,
                    values@,
                    timestamp_us,
                    now_us,
                    r,
                )
                &&& after == after_action(before, portal_handle, values@)
            },
        },
        Request::Ask { portal_handle, query } => match before.portal_fault(portal_handle) {
            Some(e) => refused(before, after, r, e),
            None => {
                &&& after == before
                &&& r matches Ok((response, effect))
                &&& answers_query(
                    before.handles[portal_handle]->Portal_0.portal,
                    query,
                    portal_handle,
                    response,
                    effect,
                )
            },
        },
        Request::DisposeHandle { handle } => {
            &&& r matches Ok((response, effect))
            &&& response == (Response::Disposed { existed: before.handles.contains_key(handle) })
            &&& effect is Nothing
            &&& after == (ServerView { handles: before.handles.remove(handle), ..before })
        },
    }
}

fn on_new_config(server: &mut FfiServer, session: String, role: RoleCode) -> (r: FfiResult<
    (Response, Effect),
>)
    requires
        old(server).wf(),
    ensures
        final(server).wf(),
        answers_new_config(old(server)@, session@, role, final(server)@, r),
{
    let role: Role = match role {
        RoleCode::Known(role) => role,
        RoleCode::Unknown(code) => {
            return Err(FfiError::InvalidRequest(unknown_role(code)));
        },
    };
    let config = FfiPortalConfig::new(PortalConfig::new(session, role));
    let id: u64 = server.next_id();
    server.store_handle(id, HandleObject::Config(config));
    Ok((Response::NewConfig { handle: id }, Effect::Nothing))
}

fn on_edit_config(server: &mut FfiServer, id: u64, edit: ConfigEdit) -> (r: FfiResult<
    (Response, Effect),
>)
    requires
        old(server).wf(),
    ensures
        final(server).wf(),
        answers_edit(old(server)@, id, edit, final(server)@, r),
{
    match server.take(id) {
        None => {
            assert(server@ =~= old(server)@) by {
                assert(old(server)@.handles.remove(id) =~= old(server)@.handles);
            }
            Err(FfiError::HandleNotFound(id))
        },
        Some(HandleObject::Config(config)) => {
            let mut config: FfiPortalConfig = config;
            let edited: Result<(), String> = config.edit(edit);
            server.store_handle(id, HandleObject::Config(config));
            match edited {
                Ok(_) => {
                    assert(server@ =~= old(server)@.stored(id, ObjectView::Config(config@))) by {
                        assert(server@.handles =~= old(server)@.handles.insert(
                            id,
                            ObjectView::Config(config@),
                        ));
                    }
                    Ok((Response::ConfigEdited, Effect::Nothing))
                },
                Err(text) => {
                    assert(server@ =~= old(server)@) by {
                        assert(server@.handles =~= old(server)@.handles);
                    }
                    Err(FfiError::Rejected(text))
                },
            }
        },
        Some(other) => {
            server.store_handle(id, other);
            assert(server@ =~= old(server)@) by {
                assert(server@.handles =~= old(server)@.handles);
            }
            Err(FfiError::HandleTypeMismatch(id))
        },
    }
}

fn on_new_portal(server: &mut FfiServer, id: u64) -> (r: FfiResult<(Response, Effect)>)
    requires
        old(server).wf(),
    ensures
        final(server).wf(),
        answers_new_portal(old(server)@, id, final(server)@, r),
{
    let (snapshot, declared, told): (PortalConfig, DeclaredFields, DeclaredFields) =
        match server.object(id) {
        Some(HandleObject::Config(config)) => (
            config.snapshot(),
            config.declared_fields(),
            config.declared_fields(),
        ),
        Some(_) => {
            return Err(FfiError::HandleTypeMismatch(id));
        },
        None => {
            return Err(FfiError::HandleNotFound(id));
        },
    };
    let portal = Portal::new(snapshot);
    let handle: u64 = server.next_id();
    let object = FfiPortal::new(handle, portal, declared);
    server.store_handle(handle, HandleObject::Portal(object));
    Ok((Response::NewPortal { handle, declared: told }, Effect::Nothing))
}

/// Whether there is a portal behind a handle.
fn check_portal(server: &FfiServer, id: u64) -> (r: FfiResult<()>)
    requires
        server.wf(),
    ensures
        match r {
            Ok(_) => server@.portal_fault(id) is None,
            Err(e) => server@.portal_fault(id) == Some(e@),
        },
{
    match server.object(id) {
        Some(HandleObject::Portal(_)) => Ok(()),
        Some(_) => Err(FfiError::HandleTypeMismatch(id)),
        None => Err(FfiError::HandleNotFound(id)),
    }
}

fn on_send_video_frame(
    server: &FfiServer,
    id: u64,
    track_name: String,
    rgb_data: &[u8],
    width: u32,
    height: u32,
    timestamp_us: Option<u64>,
    now_us: u64,
) -> (r: FfiResult<(Response, Effect)>)
    requires
        server.wf(),
    ensures
        answers_frame(
            server@,
            id,
            track_name@,
            rgb_data@.len(),
            width,
            height,
            timestamp_us,
            now_us,
            server@,
            r,
        ),
{
    let portal: &FfiPortal = match server.object(id) {
        Some(HandleObject::Portal(portal)) => portal,
        Some(_) => {
            return Err(FfiError::HandleTypeMismatch(id));
        },
        None => {
            return Err(FfiError::HandleNotFound(id));
        },
    };
    match portal.inner().send_video_frame(track_name.as_str()) {
        Ok(VideoRoute::Media) => {
            match check_frame(rgb_data, width, height, timestamp_us, now_us) {
                Ok(ts) => Ok(
                    (
                        Response::Sent { error: None },
                        Effect::CaptureFrame { track_name, timestamp_us: ts },
                    ),
                ),
                Err(e) => Ok(
                    (Response::Sent { error: Some(error_record(&e)) }, Effect::Nothing),
                ),
            }
        },
        Ok(VideoRoute::Frame) => Ok(
            (
                Response::Sent { error: None },
                Effect::EncodeFrame { track_name, timestamp_us },
            ),
        ),
        Err(e) => Ok((Response::Sent { error: Some(error_record(&e)) }, Effect::Nothing)),
    }
}

fn on_send_state(
    server: &mut FfiServer,
    id: u64,
    values: &FieldMap<Double>,
    timestamp_us: Option<u64>,
    now_us: u64,
) -> (r: FfiResult<(Response, Effect)>)
    requires
        old(server).wf(),
    ensures
        final(server).wf(),
        match old(server)@.portal_fault(id) {
            Some(e) => refused(old(server)@, final(server)@, r, e),
            None => {
                &&& answers_row(
                    old(server)@.handles[id]->Portal_0.portal.state_publisher,
                    old(server)@.handles[id]->Portal_0.portal.config.state_schema,
                    Role::Operator,
                    values@,
                    timestamp_us,
                    now_us,
                    r,
                )
                &&& final(server)@ == after_state(old(server)@, id, values@)
            },
        },
{
    match server.take(id) {
        None => {
            assert(old(server)@.handles.remove(id) =~= old(server)@.handles);
            Err(FfiError::HandleNotFound(id))
        },
        Some(HandleObject::Portal(portal)) => {
            let mut portal: FfiPortal = portal;
            let sent: PortalResult<OutgoingPacket> = portal.send_state(
                values,
                timestamp_us,
                now_us,
            );
            server.store_handle(id, HandleObject::Portal(portal));
            assert(server@.handles =~= after_state(old(server)@, id, values@).handles);
            match sent {
                Ok(packet) => Ok((Response::Sent { error: None }, Effect::Publish(packet))),
                Err(e) => Ok((Response::Sent { error: Some(error_record(&e)) }, Effect::Nothing)),
            }
        },
        Some(other) => {
            server.store_handle(id, other);
            assert(server@.handles =~= old(server)@.handles);
            Err(FfiError::HandleTypeMismatch(id))
        },
    }
}

fn on_send_action(
    server: &mut FfiServer,
    id: u64,
    values: &FieldMap<Double>,
    timestamp_us: Option<u64>,
    now_us: u64,
) -> (r: FfiResult<(Response, Effect)>)
    requires
        old(server).wf(),
    ensures
        final(server).wf(),
        match old(server)@.portal_fault(id) {
            Some(e) => refused(old(server)@, final(server)@, r, e),
            None => {
                &&& answers_row(
                    old(server)@.handles[id]->Portal_0.portal.action_publisher,
                    old(server)@.handles[id]->Portal_0.portal.config.action_schema,
                    Role::Robot,
                    values@,
                    timestamp_us,
                    now_us,
                    r,
                )
                &&& final(server)@ == after_action(old(server)@, id, values@)
            },
        },
{
    match server.take(id) {
        None => {
            assert(old(server)@.handles.remove(id) =~= old(server)@.handles);
            Err(FfiError::HandleNotFound(id))
        },
        Some(HandleObject::Portal(portal)) => {
            let mut portal: FfiPortal = portal;
            let sent: PortalResult<OutgoingPacket> = portal.send_action(
                values,
                timestamp_us,
                now_us,
            );
            server.store_handle(id, HandleObject::Portal(portal));
            assert(server@.handles =~= after_action(old(server)@, id, values@).handles);
            match sent {
                Ok(packet) => Ok((Response::Sent { error: None }, Effect::Publish(packet))),
                Err(e) => Ok((Response::Sent { error: Some(error_record(&e)) }, Effect::Nothing)),
            }
        },
        Some(other) => {
            server.store_handle(id, other);
            assert(server@.handles =~= old(server)@.handles);
            Err(FfiError::HandleTypeMismatch(id))
        },
    }
}

/// The values of a row that may not have arrived yet.
fn latest_values(latest: Option<&crate::data::DataSample>) -> (response: Response)
    ensures
        response matches Response::Values { values, present },
        match latest {
            Some(sample) => response->present && response->Values_values@ == sample.fields@,
            None => !response->present && response->Values_values@ == Map::<
                Seq<char>,
                Double,
            >::empty(),
        },
{
    match latest {
        Some(sample) => Response::Values { values: copy_fields(&sample.fields), present: true },
        None => Response::Values { values: FieldMap::new(), present: false },
    }
}

fn on_query(portal: &FfiPortal, id: u64, query: Query) -> (answer: (Response, Effect))
    requires
        portal.wf(),
    ensures
        answers_query(portal@.portal, query, id, answer.0, answer.1),
{
    let inner: &Portal = portal.inner();
    match query {
        Query::Observation => {
            let observation: Option<crate::ffi::Observation> = match inner.get_observation() {
                Some(o) => Some(observation_from_core(o)),
                None => None,
            };
            (Response::Observation(observation), Effect::Nothing)
        },
        Query::Action => (latest_values(inner.get_action()), Effect::Nothing),
        Query::State => (latest_values(inner.get_state()), Effect::Nothing),
        Query::VideoFrame(track) => {
            let frame: Option<crate::ffi::VideoFrame> = match inner.get_video_frame(
                track.as_str(),
            ) {
                Some(f) => Some(frame_from_core(&*f)),
                None => None,
            };
            (Response::VideoFrame(frame), Effect::Nothing)
        },
        Query::Metrics => {
            let (video_fill, state_fill) = inner.buffer_fill();
            (Response::Metrics { video_fill, state_fill }, Effect::Nothing)
        },
        Query::ResetMetrics => (
            Response::MetricsReset,
            Effect::ResetMetrics { portal_handle: id },
        ),
    }
}

/// Answers a request. What remains to be done for it is returned with the answer.
pub fn handle_request(server: &mut FfiServer, request: Option<Request>, now_us: u64) -> (r:
    FfiResult<(Response, Effect)>)
    requires
        old(server).wf(),
    ensures
        final(server).wf(),
        match request {
            Some(request) => answers(old(server)@, request, now_us, final(server)@, r),
            None => refused(
                old(server)@,
                final(server)@,
                r,
                FfiErrorView::InvalidRequest("FfiRequest.message empty"@),
            ),
        },
{
    let request: Request = match request {
        Some(request) => request,
        None => {
            return Err(FfiError::InvalidRequest("FfiRequest.message empty".to_owned()));
        },
    };
    match request {
        Request::NewConfig { session, role } => on_new_config(server, session, role),
        Request::EditConfig { config_handle, edit } => on_edit_config(server, config_handle, edit),
        Request::NewPortal { config_handle } => on_new_portal(server, config_handle),
        Request::Connect { portal_handle, url, token } => match check_portal(
            server,
            portal_handle,
        ) {
            Ok(_) => {
                let async_id: u64 = server.next_id();
                Ok(
                    (
                        Response::Pending { async_id },
                        Effect::Connect { portal_handle, async_id, url, token },
                    ),
                )
            },
            Err(e) => Err(e),
        },
        Request::Disconnect { portal_handle } => match check_portal(server, portal_handle) {
            Ok(_) => {
                let async_id: u64 = server.next_id();
                Ok(
                    (
                        Response::Pending { async_id },
                        Effect::Disconnect { portal_handle, async_id },
                    ),
                )
            },
            Err(e) => Err(e),
        },
        Request::SendVideoFrame { portal_handle, track_name, rgb_data, width, height, timestamp_us } =>
        on_send_video_frame(
            server,
            portal_handle,
            track_name,
            rgb_data.as_slice(),
            width,
            height,
            timestamp_us,
            now_us,
        ),
        Request::SendState { portal_handle, values, timestamp_us } => on_send_state(
            server,
            portal_handle,
            &values,
            timestamp_us,
            now_us,
        ),
        Request::SendAction { portal_handle, values, timestamp_us } => on_send_action(
            server,
            portal_handle,
            &values,
            timestamp_us,
            now_us,
        ),
        Request::Ask { portal_handle, query } => match server.object(portal_handle) {
            Some(HandleObject::Portal(portal)) => Ok(on_query(portal, portal_handle, query)),
            Some(_) => Err(FfiError::HandleTypeMismatch(portal_handle)),
            None => Err(FfiError::HandleNotFound(portal_handle)),
        },
        Request::DisposeHandle { handle } => {
            let existed: bool = server.drop_handle(handle);
            Ok((Response::Disposed { existed }, Effect::Nothing))
        },
    }
}

/// A refused request leaves everything as it was.
pub proof fn law_refusal_changes_nothing(
    before: ServerView,
    request: Request,
    now_us: u64,
    after: ServerView,
    r: FfiResult<(Response, Effect)>,
)
    requires
        answers(before, request, now_us, after, r),
        r is Err,
    ensures
        after == before,
{
}

/// The handle that a request goes through, if it goes through one that something has to be
/// behind.
pub open spec fn handle_needed(request: Request) -> Option<u64> {
    match request {
        Request::EditConfig { config_handle, .. } => Some(config_handle),
        Request::NewPortal { config_handle } => Some(config_handle),
        Request::Connect { portal_handle, .. } => Some(portal_handle),
        Request::Disconnect { portal_handle } => Some(portal_handle),
        Request::SendVideoFrame { portal_handle, .. } => Some(portal_handle),
        Request::SendState { portal_handle, .. } => Some(portal_handle),
        Request::SendAction { portal_handle, .. } => Some(portal_handle),
        Request::Ask { portal_handle, .. } => Some(portal_handle),
        Request::NewConfig { .. } | Request::DisposeHandle { .. } => None,
    }
}

/// A request through a handle that nothing is behind is refused with that handle, whatever it
/// asks for; only disposing of it is answered.
pub proof fn law_unknown_handle_is_refused(
    before: ServerView,
    request: Request,
    now_us: u64,
    after: ServerView,
    r: FfiResult<(Response, Effect)>,
)
    requires
        answers(before, request, now_us, after, r),
        handle_needed(request) matches Some(id) && !before.handles.contains_key(id),
    ensures
        r matches Err(e) && e@ == FfiErrorView::HandleNotFound(handle_needed(request)->0),
        after == before,
{
}

/// A request for another kind of object than is behind its handle is refused with that handle and
/// changes nothing.
pub proof fn law_wrong_kind_is_refused(
    before: ServerView,
    request: Request,
    now_us: u64,
    after: ServerView,
    r: FfiResult<(Response, Effect)>,
)
    requires
        answers(before, request, now_us, after, r),
        handle_needed(request) matches Some(id) && before.handles.contains_key(id),
        request is EditConfig || request is NewPortal ==> !(
        before.handles[handle_needed(request)->0] is Config),
        !(request is EditConfig || request is NewPortal) ==> !(
        before.handles[handle_needed(request)->0] is Portal),
    ensures
        r matches Err(e) && e@ == FfiErrorView::HandleTypeMismatch(handle_needed(request)->0),
        after == before,
{
}

/// A request touches the object behind its own handle alone: every other object stays as it is, but
/// for one that is newly made under the next number.
pub proof fn law_other_objects_stay(
    before: ServerView,
    request: Request,
    now_us: u64,
    after: ServerView,
    r: FfiResult<(Response, Effect)>,
    other: u64,
)
    requires
        answers(before, request, now_us, after, r),
        handle_needed(request) != Some(other),
        !(request matches Request::DisposeHandle { handle } && handle == other),
        other != before.next_id,
    ensures
        after.handles.contains_key(other) <==> before.handles.contains_key(other),
        before.handles.contains_key(other) ==> after.handles[other] == before.handles[other],
        after.config == before.config,
{
}

/// A configuration for a known role is made under the next number, for the session and the role
/// that were asked for, with nothing declared. An unknown role is refused.
pub proof fn law_configuration_is_made(
    before: ServerView,
    session: String,
    role: RoleCode,
    now_us: u64,
    after: ServerView,
    r: FfiResult<(Response, Effect)>,
)
    requires
        answers(before, Request::NewConfig { session, role }, now_us, after, r),
    ensures
        role matches RoleCode::Known(known) ==> {
            &&& r matches Ok((Response::NewConfig { handle }, Effect::Nothing))
            &&& handle == before.next_id
            &&& after.handles.contains_key(handle)
            &&& after.handles[handle] matches ObjectView::Config(made)
            &&& made.config.session == session@
            &&& made.config.role == known
            &&& made.config.video_tracks.len() == 0
            &&& made.config.state_schema.len() == 0
            &&& made.config.action_schema.len() == 0
            &&& made.declared.video_tracks.len() == 0
            &&& made.declared.state_fields.len() == 0
            &&& made.declared.action_fields.len() == 0
            &&& before.next_id < u64::MAX ==> after.next_id == before.next_id + 1
        },
        role matches RoleCode::Unknown(code) ==> {
            &&& r matches Err(e)
            &&& e@ is InvalidRequest
            &&& after == before
        },
{
}

/// A change that is accepted is made to the configuration it was asked of, and one that is not
/// accepted is told with the reason.
pub proof fn law_configuration_is_edited(
    before: ServerView,
    config_handle: u64,
    edit: ConfigEdit,
    now_us: u64,
    after: ServerView,
    r: FfiResult<(Response, Effect)>,
    config: FfiConfigView,
)
    requires
        answers(before, Request::EditConfig { config_handle, edit }, now_us, after, r),
        before.handles.contains_key(config_handle),
        before.handles[config_handle] == ObjectView::Config(config),
    ensures
        match config.edited(edit) {
            Ok(edited) => {
                &&& r matches Ok((Response::ConfigEdited, Effect::Nothing))
                &&& after.handles.contains_key(config_handle)
                &&& after.handles[config_handle] == ObjectView::Config(edited)
                &&& after.next_id == before.next_id
            },
            Err(reason) => {
                &&& r matches Err(e)
                &&& e@ == FfiErrorView::Rejected(reason)
                &&& after == before
            },
        },
{
}

/// A portal is made under the next number, for the configuration it was asked for, and has not
/// joined anything. It is told what was declared, and the configuration stays.
pub proof fn law_portal_is_made(
    before: ServerView,
    config_handle: u64,
    now_us: u64,
    after: ServerView,
    r: FfiResult<(Response, Effect)>,
    config: FfiConfigView,
)
    requires
        answers(before, Request::NewPortal { config_handle }, now_us, after, r),
        before.handles.contains_key(config_handle),
        before.handles[config_handle] == ObjectView::Config(config),
    ensures
        r matches Ok((Response::NewPortal { handle, declared }, Effect::Nothing)) && {
            &&& handle == before.next_id
            &&& declared@ == config.declared
            &&& after.handles.contains_key(handle)
            &&& after.handles[handle] matches ObjectView::Portal(made)
            &&& made.handle == handle
            &&& made.declared == config.declared
            &&& made.portal.config == config.config
            &&& !made.portal.connected
            &&& !made.portal.participant
            &&& made.portal.peer is None
            &&& config_handle != handle ==> after.handles[config_handle] == ObjectView::Config(
                config,
            )
            &&& before.next_id < u64::MAX ==> after.next_id == before.next_id + 1
        },
{
}

/// Joining and leaving are begun for the portal that was asked, under the next number, with the
/// address and the token that were given; nothing else changes.
pub proof fn law_joining_and_leaving_are_begun(
    before: ServerView,
    portal_handle: u64,
    url: String,
    token: String,
    now_us: u64,
    joined: ServerView,
    join: FfiResult<(Response, Effect)>,
    left: ServerView,
    leave: FfiResult<(Response, Effect)>,
)
    requires
        before.handles.contains_key(portal_handle),
        before.handles[portal_handle] is Portal,
        answers(before, Request::Connect { portal_handle, url, token }, now_us, joined, join),
        answers(before, Request::Disconnect { portal_handle }, now_us, left, leave),
    ensures
        join matches Ok((Response::Pending { async_id }, effect)) && {
            &&& async_id == before.next_id
            &&& effect == (Effect::Connect { portal_handle, async_id, url, token })
        },
        leave matches Ok((Response::Pending { async_id }, effect)) && {
            &&& async_id == before.next_id
            &&& effect == (Effect::Disconnect { portal_handle, async_id })
        },
        joined.handles == before.handles,
        left.handles == before.handles,
        before.next_id < u64::MAX ==> joined.next_id == before.next_id + 1 && left.next_id
            == before.next_id + 1,
{
}

/// A frame goes out on the track it is meant for, stamped as asked: on the media path where the
/// track is published there and the frame is a proper one, as an image of its own where it is a
/// track of images. Otherwise nothing goes out and the mistake is told. The server stays as it is.
pub proof fn law_frame_is_routed(
    before: ServerView,
    portal_handle: u64,
    track_name: String,
    rgb_data: Vec<u8>,
    width: u32,
    height: u32,
    timestamp_us: Option<u64>,
    now_us: u64,
    after: ServerView,
    r: FfiResult<(Response, Effect)>,
    portal: FfiPortalView,
)
    requires
        answers(
            before,
            Request::SendVideoFrame {
                portal_handle,
                track_name,
                rgb_data,
                width,
                height,
                timestamp_us,
            },
            now_us,
            after,
            r,
        ),
        before.handles.contains_key(portal_handle),
        before.handles[portal_handle] == ObjectView::Portal(portal),
    ensures
        after == before,
        r matches Ok((Response::Sent { error }, effect)) && {
            let media = portal.portal.video_publishers.contains(track_name@);
            let image = !media && portal.portal.frame_video_publishers.contains(track_name@);
            let proper = width % 2 == 0 && height % 2 == 0 && rgb_data@.len() == 3 * (width
                * height);
            &&& media && proper ==> {
                &&& error is None
                &&& effect matches Effect::CaptureFrame { track_name: name, timestamp_us: stamp }
                &&& name@ == track_name@
                &&& timestamp_us matches Some(ts) ==> stamp == ts
                &&& timestamp_us is None ==> stamp == now_us
            }
            &&& image ==> {
                &&& error is None
                &&& effect matches Effect::EncodeFrame { track_name: name, timestamp_us: stamp }
                &&& name@ == track_name@
                &&& stamp == timestamp_us
            }
            &&& media && !proper ==> {
                &&& effect is Nothing
                &&& error matches Some(record)
                &&& width % 2 == 1 || height % 2 == 1 ==> record.variant@
                    == "InvalidFrameDimensions"@
                &&& width % 2 == 0 && height % 2 == 0 ==> record.variant@ == "WrongFrameSize"@
            }
            &&& !media && !image ==> {
                &&& effect is Nothing
                &&& error matches Some(record)
                &&& portal.portal.config.role == Role::Operator
                    && portal.portal.config.all_tracks().contains(track_name@) ==> record.variant@
                    == "WrongRole"@
                &&& portal.portal.config.role == Role::Robot
                    || !portal.portal.config.all_tracks().contains(track_name@) ==> record.variant@
                    == "UnknownVideoTrack"@
            }
        },
{
    crate::video::law_frame_is_checked(rgb_data@.len(), width, height);
}

/// A state goes out through the state publisher of its portal, an action through the action
/// publisher; without the publisher nothing goes out and the role is told. Nothing but that
/// publisher changes.
pub proof fn law_rows_are_published(
    before: ServerView,
    portal_handle: u64,
    values: FieldMap<Double>,
    timestamp_us: Option<u64>,
    now_us: u64,
    after: ServerView,
    r: FfiResult<(Response, Effect)>,
    portal: FfiPortalView,
    states: bool,
)
    requires
        answers(
            before,
            if states {
                Request::SendState { portal_handle, values, timestamp_us }
            } else {
                Request::SendAction { portal_handle, values, timestamp_us }
            },
            now_us,
            after,
            r,
        ),
        before.handles.contains_key(portal_handle),
        before.handles[portal_handle] == ObjectView::Portal(portal),
    ensures
        ({
            let publisher = if states {
                portal.portal.state_publisher
            } else {
                portal.portal.action_publisher
            };
            &&& r matches Ok((Response::Sent { error }, effect))
            &&& error is Some <==> effect is Nothing
            &&& error is None <==> effect is Publish
            &&& publisher is None ==> {
                &&& error matches Some(record)
                &&& record.variant@ == "WrongRole"@
                &&& effect is Nothing
            }
            &&& effect matches Effect::Publish(packet) ==> {
                &&& publisher matches Some(p)
                &&& packet.topic@ == p.topic
                &&& packet.reliable == p.reliable
                &&& packet.fingerprint == p.fingerprint
                &&& packet.in_reply_to_ts_us is None
                &&& packet_sent(p, values@, timestamp_us, None, now_us, packet)
            }
            &&& after.next_id == before.next_id
            &&& after.handles.contains_key(portal_handle)
            &&& after.handles[portal_handle] matches ObjectView::Portal(kept)
            &&& kept == (FfiPortalView {
                portal: PortalView {
                    state_publisher: if states {
                        kept.portal.state_publisher
                    } else {
                        portal.portal.state_publisher
                    },
                    action_publisher: if states {
                        portal.portal.action_publisher
                    } else {
                        kept.portal.action_publisher
                    },
                    ..portal.portal
                },
                ..portal
            })
        }),
{
    let schema = if states {
        portal.portal.config.state_schema
    } else {
        portal.portal.config.action_schema
    };
    crate::typed::law_declared_values_pass(values@, schema);
}

/// A row whose fields are each declared once is always published, since numbers are taken as their
/// fields were declared; and its publisher takes the values over.
pub proof fn law_number_rows_go_out(
    before: ServerView,
    portal_handle: u64,
    values: FieldMap<Double>,
    timestamp_us: Option<u64>,
    now_us: u64,
    after: ServerView,
    r: FfiResult<(Response, Effect)>,
    portal: FfiPortalView,
    publisher: PublisherView,
    states: bool,
)
    requires
        answers(
            before,
            if states {
                Request::SendState { portal_handle, values, timestamp_us }
            } else {
                Request::SendAction { portal_handle, values, timestamp_us }
            },
            now_us,
            after,
            r,
        ),
        before.handles.contains_key(portal_handle),
        before.handles[portal_handle] == ObjectView::Portal(portal),
        states ==> portal.portal.state_publisher == Some(publisher) && publisher.schema
            == portal.portal.config.state_schema,
        !states ==> portal.portal.action_publisher == Some(publisher) && publisher.schema
            == portal.portal.config.action_schema,
        forall|i: int, j: int|
            0 <= i < j < publisher.schema.len() ==> (#[trigger] publisher.schema[i]).name != (
            #[trigger] publisher.schema[j]).name,
    ensures
        r matches Ok((Response::Sent { error }, effect)) && error is None && effect is Publish,
        after.handles[portal_handle] matches ObjectView::Portal(kept) && (if states {
            kept.portal.state_publisher
        } else {
            kept.portal.action_publisher
        }) == Some(publisher.after_row(values@)),
{
    crate::typed::law_declared_values_pass(values@, publisher.schema);
}

/// A question changes nothing and is answered with the latest of what it asks for: the observation,
/// the fields of the action or of the state, or the frame of the track, and with nothing where
/// there is none; or with how many frames and states wait.
pub proof fn law_questions_are_answered(
    before: ServerView,
    portal_handle: u64,
    query: Query,
    now_us: u64,
    after: ServerView,
    r: FfiResult<(Response, Effect)>,
    portal: FfiPortalView,
)
    requires
        answers(before, Request::Ask { portal_handle, query }, now_us, after, r),
        before.handles.contains_key(portal_handle),
        before.handles[portal_handle] == ObjectView::Portal(portal),
    ensures
        after == before,
        r matches Ok((response, effect)) && {
            &&& !(query is ResetMetrics) ==> effect is Nothing
            &&& query is ResetMetrics ==> response is MetricsReset && effect == (
            Effect::ResetMetrics { portal_handle })
            &&& query is Observation ==> {
                &&& response matches Response::Observation(told)
                &&& told is Some <==> portal.portal.observation is Some
                &&& told matches Some(o) ==> {
                    let held = portal.portal.observation->0;
                    &&& o.timestamp_us == held.timestamp_us
                    &&& o.state@ == held.state
                    &&& forall|k: Seq<char>|
                        {
                            &&& #[trigger] o.frames@.contains_key(k) <==> held.frames.contains_key(
                                k,
                            )
                            &&& held.frames.contains_key(k) ==> o.frames@[k].data@
                                == held.frames[k].data@ && o.frames@[k].timestamp_us
                                == held.frames[k].timestamp_us
                        }
                }
            }
            &&& query is Action ==> {
                &&& response matches Response::Values { values, present }
                &&& present <==> portal.portal.action.latest is Some
                &&& portal.portal.action.latest matches Some(sample) ==> values@ == sample.fields
            }
            &&& query is State ==> {
                &&& response matches Response::Values { values, present }
                &&& present <==> portal.portal.state.latest is Some
                &&& portal.portal.state.latest matches Some(sample) ==> values@ == sample.fields
            }
            &&& query matches Query::VideoFrame(track) ==> {
                &&& response matches Response::VideoFrame(told)
                &&& told is Some <==> portal.portal.frames.contains_key(track@)
                    && portal.portal.frames[track@] is Some
                &&& told matches Some(frame) ==> {
                    let held = portal.portal.frames[track@]->0;
                    &&& frame.width == held.width
                    &&& frame.height == held.height
                    &&& frame.data@ == held.data@
                    &&& frame.timestamp_us == held.timestamp_us
                }
            }
            &&& query is Metrics ==> {
                &&& response matches Response::Metrics { video_fill, state_fill }
                &&& state_fill == match portal.portal.sync_buffer {
                    Some(sb) => sb.states.len(),
                    None => 0,
                }
                &&& portal.portal.sync_buffer is None ==> forall|k: Seq<char>|
                    !#[trigger] video_fill@.contains_key(k)
                &&& portal.portal.sync_buffer matches Some(sb) ==> forall|i: int|
                    crate::sync_outcomes::shown(sb.names, i) && i < sb.tracks.len() ==> {
                        &&& video_fill@.contains_key(#[trigger] sb.names[i])
                        &&& video_fill@[sb.names[i]] == sb.tracks[i].frames.len() as usize
                    }
            }
        },
{
    if let Some(sb) = portal.portal.sync_buffer {
        let fills = sb.tracks.map_values(
            |t: crate::sync_model::TrackView| t.frames.len() as usize,
        );
        assert forall|i: int|
            crate::sync_outcomes::shown(sb.names, i) && i < sb.tracks.len() implies {
            let fill = collect(paired(sb.names, fills));
            &&& fill.contains_key(#[trigger] sb.names[i])
            &&& fill[sb.names[i]] == sb.tracks[i].frames.len() as usize
        } by {
            crate::types::law_names_find_their_values(sb.names, fills, sb.names[i]);
            assert(fills[i] == sb.tracks[i].frames.len() as usize);
        }
    }
    if let Ok((Response::Observation(Some(o)), _)) = r {
        if query is Observation {
            let held = portal.portal.observation->0;
            assert forall|k: Seq<char>|
                {
                    &&& #[trigger] o.frames@.contains_key(k) <==> held.frames.contains_key(k)
                    &&& held.frames.contains_key(k) ==> o.frames@[k].data@ == held.frames[k].data@
                        && o.frames@[k].timestamp_us == held.frames[k].timestamp_us
                } by {
                assert(o.frames@.dom().contains(k) <==> held.frames.dom().contains(k));
                if held.frames.contains_key(k) {
                    assert(same_frame(o.frames@[k], *held.frames[k]));
                }
            }
        }
    }
}

/// Disposing of a handle always succeeds, tells whether something was behind it and leaves nothing
/// there.
pub proof fn law_disposal(
    before: ServerView,
    handle: u64,
    now_us: u64,
    after: ServerView,
    r: FfiResult<(Response, Effect)>,
)
    requires
        answers(before, Request::DisposeHandle { handle }, now_us, after, r),
    ensures
        r matches Ok((Response::Disposed { existed }, Effect::Nothing)) && (existed
            <==> before.handles.contains_key(handle)),
        !after.handles.contains_key(handle),
        after.next_id == before.next_id,
{
}

/// A record names the kind of the error and says its message, and there is one exactly where there
/// is an error.
pub proof fn law_errors_are_recorded(record: Option<ErrorRecord>, e: Option<ErrorView>)
    requires
        records(record, e),
    ensures
        record is Some <==> e is Some,
        record matches Some(told) ==> told.variant@ == variant_name(e->0) && told.message@
            == error_text(e->0),
{
}

/// A negative number is written as its magnitude behind a minus sign, any other without one.
pub proof fn law_signed_numerals(n: int)
    ensures
        n >= 0 ==> signed_decimal(n) == decimal(n as nat),
        n < 0 ==> signed_decimal(n).len() == 1 + decimal((-n) as nat).len() && signed_decimal(n)[0]
            == '-' && signed_decimal(n).skip(1) == decimal((-n) as nat),
{
    reveal_strlit("-");
    if n < 0 {
        assert(signed_decimal(n).skip(1) =~= decimal((-n) as nat));
    }
}

} // verus!
