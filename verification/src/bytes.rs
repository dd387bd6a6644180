//! Streams of bytes on topics of their own.

use vstd::prelude::*;

use crate::error::{joined, ErrorView, PortalError, PortalResult};
use crate::field_map::FieldMap;
use crate::types::texts;

verus! {

/// The handlers of incoming streams, by topic and under the numbers they are known by. They
/// stay when the session is left.
pub struct ByteStreamRegistry {
    handlers: FieldMap<u64>,
}

impl View for ByteStreamRegistry {
    type V = Map<Seq<char>, u64>;

    closed spec fn view(&self) -> Map<Seq<char>, u64> {
        self.handlers@
    }
}

impl ByteStreamRegistry {
    pub fn new() -> (registry: ByteStreamRegistry)
        ensures
            registry@ == Map::<Seq<char>, u64>::empty(),
    {
        ByteStreamRegistry { handlers: FieldMap::new() }
    }

    /// Sets the handler of a topic in place of any earlier one.
    pub fn insert(&mut self, topic: &str, handler: u64)
        ensures
            final(self)@ == old(self)@.insert(topic@, handler),
    {
        self.handlers.insert(topic.to_owned(), handler);
    }

    pub fn remove(&mut self, topic: &str)
        ensures
            final(self)@ == old(self)@.remove(topic@),
    {
        let _ = self.handlers.remove(topic);
    }

    pub fn get(&self, topic: &str) -> (handler: Option<u64>)
        ensures
            handler == if self@.contains_key(topic@) {
                Some(self@[topic@])
            } else {
                None
            },
    {
        match self.handlers.get(topic) {
            Some(handler) => Some(*handler),
            None => None,
        }
    }

    /// The handler that a stream opened on a topic is read for. Streams on other topics are
    /// left to whoever they are meant for.
    pub fn dispatch_byte_stream_opened(&self, topic: &str) -> (handler: Option<u64>)
        ensures
            handler == if self@.contains_key(topic@) {
                Some(self@[topic@])
            } else {
                None
            },
    {
        self.get(topic)
    }
}

/// How bytes are sent.
pub struct SendOptions {
    pub topic: String,
    /// Who gets them; nobody in particular means everybody.
    pub destinations: Vec<String>,
}

/// How bytes are sent on a topic, to one participant or to all.
pub fn send_options(topic: &str, destination: Option<&str>) -> (options: SendOptions)
    ensures
        options.topic@ == topic@,
        texts(options.destinations@) == match destination {
            Some(id) => seq![id@],
            None => Seq::empty(),
        },
{
    let mut destinations: Vec<String> = Vec::new();
    if let Some(id) = destination {
        destinations.push(id.to_owned());
    }
    proof {
        match destination {
            Some(id) => {
                assert(texts(destinations@) =~= seq![id@]);
            },
            None => {
                assert(texts(destinations@) =~= Seq::<Seq<char>>::empty());
            },
        }
    }
    SendOptions { topic: topic.to_owned(), destinations }
}

/// Takes over the result of sending bytes, with the reason of a failure.
pub fn send_result(sent: Result<(), String>) -> (r: PortalResult<()>)
    ensures
        match sent {
            Ok(_) => r is Ok,
            Err(reason) => r matches Err(e) && e@ == ErrorView::Room("send_bytes: "@ + reason@),
        },
{
    match sent {
        Ok(_) => Ok(()),
        Err(reason) => Err(PortalError::Room(joined("send_bytes: ", reason.as_str()))),
    }
}

} // verus!
