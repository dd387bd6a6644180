//! What can go wrong in a portal.

use vstd::prelude::*;

use crate::dtype::{dtype_name, DType};
use crate::text::{decimal, push_decimal, push_wide_decimal, stands_at};
use crate::types::Role;

verus! {

pub type PortalResult<T> = Result<T, PortalError>;

/// A failed remote call.
#[derive(Debug)]
pub struct RpcError {
    pub code: u32,
    pub message: String,
    pub data: Option<String>,
}

impl RpcError {
    pub fn new(code: u32, message: String, data: Option<String>) -> (e: RpcError)
        ensures
            e.code == code,
            e.message == message,
            e.data == data,
    {
        RpcError { code, message, data }
    }
}

#[derive(Debug)]
#[allow(inconsistent_fields)]
pub enum PortalError {
    /// The transport failed.
    Room(String),
    AlreadyConnected,
    NotConnected,
    /// There is nobody to call.
    NoPeer,
    /// There is more than one participant that could be meant.
    AmbiguousPeer,
    UnknownVideoTrack { name: String },
    UnknownChunk { name: String },
    /// The expected number may be more than a machine can address.
    WrongValueCount { expected: u128, got: usize },
    WrongFrameSize { expected: u128, got: usize },
    /// Chroma subsampling needs an even width and height.
    InvalidFrameDimensions { width: u32, height: u32 },
    Deserialization(String),
    WrongRole(Role),
    DtypeMismatch { field: String, expected: DType, got: String },
    Rpc(RpcError),
    DataTrack(String),
    Internal(String),
}

/// What an error says.
#[allow(inconsistent_fields)]
pub enum ErrorView {
    Room(Seq<char>),
    AlreadyConnected,
    NotConnected,
    NoPeer,
    AmbiguousPeer,
    UnknownVideoTrack(Seq<char>),
    UnknownChunk(Seq<char>),
    WrongValueCount { expected: nat, got: nat },
    WrongFrameSize { expected: nat, got: nat },
    InvalidFrameDimensions { width: nat, height: nat },
    Deserialization(Seq<char>),
    WrongRole(Role),
    DtypeMismatch { field: Seq<char>, expected: DType, got: Seq<char> },
    Rpc { code: u32, message: Seq<char>, data: Option<Seq<char>> },
    DataTrack(Seq<char>),
    Internal(Seq<char>),
}

/// The text of an optional string.
pub open spec fn optional_text(text: Option<String>) -> Option<Seq<char>> {
    match text {
        Some(t) => Some(t@),
        None => None,
    }
}

impl View for PortalError {
    type V = ErrorView;

    open spec fn view(&self) -> ErrorView {
        match *self {
            PortalError::Room(text) => ErrorView::Room(text@),
            PortalError::AlreadyConnected => ErrorView::AlreadyConnected,
            PortalError::NotConnected => ErrorView::NotConnected,
            PortalError::NoPeer => ErrorView::NoPeer,
            PortalError::AmbiguousPeer => ErrorView::AmbiguousPeer,
            PortalError::UnknownVideoTrack { name } => ErrorView::UnknownVideoTrack(name@),
            PortalError::UnknownChunk { name } => ErrorView::UnknownChunk(name@),
            PortalError::WrongValueCount { expected, got } => ErrorView::WrongValueCount {
                expected: expected as nat,
                got: got as nat,
            },
            PortalError::WrongFrameSize { expected, got } => ErrorView::WrongFrameSize {
                expected: expected as nat,
                got: got as nat,
            },
            PortalError::InvalidFrameDimensions { width, height } =>
            ErrorView::InvalidFrameDimensions { width: width as nat, height: height as nat },
            PortalError::Deserialization(text) => ErrorView::Deserialization(text@),
            PortalError::WrongRole(role) => ErrorView::WrongRole(role),
            PortalError::DtypeMismatch { field, expected, got } => ErrorView::DtypeMismatch {
                field: field@,
                expected,
                got: got@,
            },
            PortalError::Rpc(e) => ErrorView::Rpc {
                code: e.code,
                message: e.message@,
                data: optional_text(e.data),
            },
            PortalError::DataTrack(text) => ErrorView::DataTrack(text@),
            PortalError::Internal(text) => ErrorView::Internal(text@),
        }
    }
}

/// The name of a role.
pub open spec fn role_name(role: Role) -> Seq<char> {
    match role {
        Role::Robot => "Robot"@,
        Role::Operator => "Operator"@,
    }
}

/// The message of an error.
pub open spec fn error_text(e: ErrorView) -> Seq<char> {
    match e {
        ErrorView::Room(text) => "room error: "@ + text,
        ErrorView::AlreadyConnected => "portal is already connected"@,
        ErrorView::NotConnected => "portal is not connected"@,
        ErrorView::NoPeer => "no peer in the room"@,
        ErrorView::AmbiguousPeer =>
        "room has multiple remote participants; pass destination explicitly"@,
        ErrorView::UnknownVideoTrack(name) => "unknown video track: "@ + name,
        ErrorView::UnknownChunk(name) => "unknown action chunk: "@ + name,
        ErrorView::WrongValueCount { expected, got } => "wrong number of values: expected "@
            + decimal(expected) + ", got "@ + decimal(got),
        ErrorView::WrongFrameSize { expected, got } => "wrong frame size: expected "@ + decimal(
            expected,
        ) + " bytes, got "@ + decimal(got),
        ErrorView::InvalidFrameDimensions { width, height } => "invalid frame dimensions: "@
            + decimal(width) + "x"@ + decimal(height) + " (must both be even)"@,
        ErrorView::Deserialization(text) => "deserialization error: "@ + text,
        ErrorView::WrongRole(role) => "operation not available for role "@ + role_name(role),
        ErrorView::DtypeMismatch { field, expected, got } => "field '"@ + field
            + "' declared as "@ + dtype_name(expected) + " but sent as "@ + got,
        ErrorView::Rpc { code, message, data } => "rpc error "@ + decimal(code as nat) + ": "@
            + message,
        ErrorView::DataTrack(text) => "data track error: "@ + text,
        ErrorView::Internal(text) => "internal error: "@ + text,
    }
}

/// `first` followed by `second`.
pub fn joined(first: &str, second: &str) -> (text: String)
    ensures
        text@ == first@ + second@,
{
    let mut text: String = first.to_owned();
    text.append(second);
    text
}

impl PortalError {
    /// The message of the error.
    pub fn message(&self) -> (text: String)
        ensures
            text@ == error_text(self@),
    {
        match self {
            PortalError::Room(t) => joined("room error: ", t.as_str()),
            PortalError::AlreadyConnected => "portal is already connected".to_owned(),
            PortalError::NotConnected => "portal is not connected".to_owned(),
            PortalError::NoPeer => "no peer in the room".to_owned(),
            PortalError::AmbiguousPeer =>
            "room has multiple remote participants; pass destination explicitly".to_owned(),
            PortalError::UnknownVideoTrack { name } => joined(
                "unknown video track: ",
                name.as_str(),
            ),
            PortalError::UnknownChunk { name } => joined("unknown action chunk: ", name.as_str()),
            PortalError::WrongValueCount { expected, got } => {
                let mut text: String = "wrong number of values: expected ".to_owned();
                push_wide_decimal(&mut text, *expected);
                text.append(", got ");
                push_decimal(&mut text, *got as u64);
                text
            },
            PortalError::WrongFrameSize { expected, got } => {
                let mut text: String = "wrong frame size: expected ".to_owned();
                push_wide_decimal(&mut text, *expected);
                text.append(" bytes, got ");
                push_decimal(&mut text, *got as u64);
                text
            },
            PortalError::InvalidFrameDimensions { width, height } => {
                let mut text: String = "invalid frame dimensions: ".to_owned();
                push_decimal(&mut text, *width as u64);
                text.append("x");
                push_decimal(&mut text, *height as u64);
                text.append(" (must both be even)");
                text
            },
            PortalError::Deserialization(t) => joined("deserialization error: ", t.as_str()),
            PortalError::WrongRole(role) => joined(
                "operation not available for role ",
                match role {
                    Role::Robot => "Robot",
                    Role::Operator => "Operator",
                },
            ),
            PortalError::DtypeMismatch { field, expected, got } => {
                let mut text: String = joined("field '", field.as_str());
                text.append("' declared as ");
                text.append(expected.name());
                text.append(" but sent as ");
                text.append(got.as_str());
                text
            },
            PortalError::Rpc(e) => {
                let mut text: String = "rpc error ".to_owned();
                push_decimal(&mut text, e.code as u64);
                text.append(": ");
                text.append(e.message.as_str());
                text
            },
            PortalError::DataTrack(t) => joined("data track error: ", t.as_str()),
            PortalError::Internal(t) => joined("internal error: ", t.as_str()),
        }
    }
}

/// A message ends with what the error is about: the reason, the name or what came instead of what
/// was expected; and the names of the roles and of the fields stand in it.
pub proof fn law_messages_tell_what_it_is_about(
    text: Seq<char>,
    expected: nat,
    got: nat,
    role: Role,
    dtype: DType,
    code: u32,
    data: Option<Seq<char>>,
)
    ensures
        text.is_suffix_of(error_text(ErrorView::Room(text))),
        text.is_suffix_of(error_text(ErrorView::UnknownVideoTrack(text))),
        text.is_suffix_of(error_text(ErrorView::UnknownChunk(text))),
        text.is_suffix_of(error_text(ErrorView::Deserialization(text))),
        text.is_suffix_of(error_text(ErrorView::DataTrack(text))),
        text.is_suffix_of(error_text(ErrorView::Internal(text))),
        text.is_suffix_of(error_text(ErrorView::Rpc { code, message: text, data })),
        text.is_suffix_of(
            error_text(ErrorView::DtypeMismatch { field: text, expected: dtype, got: text }),
        ),
        decimal(got).is_suffix_of(error_text(ErrorView::WrongValueCount { expected, got })),
        decimal(got).is_suffix_of(error_text(ErrorView::WrongFrameSize { expected, got })),
        role_name(role).is_suffix_of(error_text(ErrorView::WrongRole(role))),
{
    lemma_suffix("room error: "@, text);
    lemma_suffix("unknown video track: "@, text);
    lemma_suffix("unknown action chunk: "@, text);
    lemma_suffix("deserialization error: "@, text);
    lemma_suffix("data track error: "@, text);
    lemma_suffix("internal error: "@, text);
    lemma_suffix("rpc error "@ + decimal(code as nat) + ": "@, text);
    lemma_suffix(
        "field '"@ + text + "' declared as "@ + dtype_name(dtype) + " but sent as "@,
        text,
    );
    lemma_suffix(
        "wrong number of values: expected "@ + decimal(expected) + ", got "@,
        decimal(got),
    );
    lemma_suffix(
        "wrong frame size: expected "@ + decimal(expected) + " bytes, got "@,
        decimal(got),
    );
    lemma_suffix("operation not available for role "@, role_name(role));
}

proof fn lemma_suffix(first: Seq<char>, second: Seq<char>)
    ensures
        second.is_suffix_of(first + second),
{
    assert(second =~= (first + second).subrange(first.len() as int, (first + second).len() as int));
}

/// Errors of one kind about different things have different messages, so that a message tells what
/// it is about.
pub proof fn law_messages_tell_names_apart(a: Seq<char>, b: Seq<char>)
    requires
        a != b,
    ensures
        error_text(ErrorView::Room(a)) != error_text(ErrorView::Room(b)),
        error_text(ErrorView::UnknownVideoTrack(a)) != error_text(ErrorView::UnknownVideoTrack(b)),
        error_text(ErrorView::UnknownChunk(a)) != error_text(ErrorView::UnknownChunk(b)),
        error_text(ErrorView::Deserialization(a)) != error_text(ErrorView::Deserialization(b)),
        error_text(ErrorView::DataTrack(a)) != error_text(ErrorView::DataTrack(b)),
        error_text(ErrorView::Internal(a)) != error_text(ErrorView::Internal(b)),
{
    lemma_prefix_keeps_apart("room error: "@, a, b);
    lemma_prefix_keeps_apart("unknown video track: "@, a, b);
    lemma_prefix_keeps_apart("unknown action chunk: "@, a, b);
    lemma_prefix_keeps_apart("deserialization error: "@, a, b);
    lemma_prefix_keeps_apart("data track error: "@, a, b);
    lemma_prefix_keeps_apart("internal error: "@, a, b);
}

proof fn lemma_prefix_keeps_apart(first: Seq<char>, a: Seq<char>, b: Seq<char>)
    requires
        a != b,
    ensures
        first + a != first + b,
{
    if first + a == first + b {
        assert(a =~= (first + a).skip(first.len() as int));
        assert(b =~= (first + b).skip(first.len() as int));
    }
}

/// A message about two sizes names the expected one first, and one about dimensions the width.
pub proof fn law_messages_tell_sizes_in_order(expected: nat, got: nat)
    ensures
        ({
            let text = error_text(ErrorView::WrongValueCount { expected, got });
            exists|a: int, b: int| #[trigger]
                stands_at(text, decimal(expected), a) && #[trigger] stands_at(text, decimal(got), b)
                    && a + decimal(expected).len() < b
        }),
        ({
            let text = error_text(ErrorView::WrongFrameSize { expected, got });
            exists|a: int, b: int| #[trigger]
                stands_at(text, decimal(expected), a) && #[trigger] stands_at(text, decimal(got), b)
                    && a + decimal(expected).len() < b
        }),
        ({
            let text = error_text(
                ErrorView::InvalidFrameDimensions { width: expected, height: got },
            );
            exists|a: int, b: int| #[trigger]
                stands_at(text, decimal(expected), a) && #[trigger] stands_at(text, decimal(got), b)
                    && a + decimal(expected).len() < b
        }),
{
    lemma_two_numerals(
        "wrong number of values: expected "@,
        expected,
        ", got "@,
        got,
        Seq::empty(),
    );
    lemma_two_numerals(
        "wrong frame size: expected "@,
        expected,
        " bytes, got "@,
        got,
        Seq::empty(),
    );
    lemma_two_numerals(
        "invalid frame dimensions: "@,
        expected,
        "x"@,
        got,
        " (must both be even)"@,
    );
    reveal_strlit(", got ");
    reveal_strlit(" bytes, got ");
    reveal_strlit("x");
    assert(error_text(ErrorView::WrongValueCount { expected, got }) + Seq::<char>::empty()
        =~= error_text(ErrorView::WrongValueCount { expected, got }));
    assert(error_text(ErrorView::WrongFrameSize { expected, got }) + Seq::<char>::empty()
        =~= error_text(ErrorView::WrongFrameSize { expected, got }));
    let first = "invalid frame dimensions: "@;
    let text = first + decimal(expected) + "x"@ + decimal(got) + " (must both be even)"@;
    let sizes = ErrorView::InvalidFrameDimensions { width: expected, height: got };
    assert(error_text(sizes) == text);
    assert(stands_at(text, decimal(expected), first.len() as int));
    assert(stands_at(
        text,
        decimal(got),
        (first.len() + decimal(expected).len() + "x"@.len()) as int,
    ));
}

proof fn lemma_two_numerals(
    first: Seq<char>,
    one: nat,
    second: Seq<char>,
    other: nat,
    third: Seq<char>,
)
    ensures
        ({
            let text = first + decimal(one) + second + decimal(other) + third;
            &&& stands_at(text, decimal(one), first.len() as int)
            &&& stands_at(
                text,
                decimal(other),
                (first.len() + decimal(one).len() + second.len()) as int,
            )
        }),
{
    let text = first + decimal(one) + second + decimal(other) + third;
    crate::text::lemma_stands_at(first, decimal(one), second + decimal(other) + third);
    assert(first + decimal(one) + (second + decimal(other) + third) =~= text);
    crate::text::lemma_stands_at(first + decimal(one) + second, decimal(other), third);
}

} // verus!
