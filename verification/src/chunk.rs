//! Blocks of future actions on the wire.
//!
//! A frame is, little-endian and without gaps:
//!
//! ```text
//! 0..4   magic   "PCHK"
//! 4      version 0x01
//! 5      dtype   0=F32, 1=F16
//! 6..8   horizon
//! 8..10  action_dim
//! 10..18 captured_at_us
//! 18..   payload, horizon * action_dim values of the dtype
//! ```
//!
//! The length of the payload is checked; what the values mean is up to the two ends.

use vstd::prelude::*;

use crate::error::{ErrorView, PortalError, PortalResult};
use crate::text::{decimal, push_decimal};
use crate::wire::{le_bytes, le_value, push_le, read_le};

verus! {

/// Where chunks travel.
pub const CHUNK_TOPIC: &'static str = "portal_action_chunk";

/// Bytes before the payload.
pub const HEADER_LEN: usize = 18;

/// The only known version.
pub const VERSION: u8 = 1;

/// The first bytes of a frame.
pub open spec fn magic() -> Seq<u8> {
    seq![0x50u8, 0x43u8, 0x48u8, 0x4bu8]
}

/// Type of the values of a chunk.
#[derive(Debug, Clone, Copy, PartialEq, Eq, Structural)]
pub enum ChunkDtype {
    F32,
    F16,
}

/// Bytes of a value.
pub open spec fn chunk_dtype_size(dtype: ChunkDtype) -> nat {
    match dtype {
        ChunkDtype::F32 => 4,
        ChunkDtype::F16 => 2,
    }
}

/// How a type is written.
pub open spec fn chunk_dtype_code(dtype: ChunkDtype) -> u8 {
    match dtype {
        ChunkDtype::F32 => 0,
        ChunkDtype::F16 => 1,
    }
}

impl ChunkDtype {
    /// Bytes of a value.
    pub fn size(self) -> (size: usize)
        ensures
            size == chunk_dtype_size(self),
    {
        match self {
            ChunkDtype::F32 => 4,
            ChunkDtype::F16 => 2,
        }
    }

    /// How the type is written.
    pub fn code(self) -> (code: u8)
        ensures
            code == chunk_dtype_code(self),
    {
        match self {
            ChunkDtype::F32 => 0,
            ChunkDtype::F16 => 1,
        }
    }

    /// The type that a byte stands for.
    pub fn from_code(code: u8) -> (dtype: Option<Self>)
        ensures
            dtype == chunk_dtype_of(code),
    {
        match code {
            0 => Some(ChunkDtype::F32),
            1 => Some(ChunkDtype::F16),
            _ => None,
        }
    }
}

/// The type that a byte stands for.
pub open spec fn chunk_dtype_of(code: u8) -> Option<ChunkDtype> {
    match code {
        0 => Some(ChunkDtype::F32),
        1 => Some(ChunkDtype::F16),
        _ => None,
    }
}

/// Types and the bytes they are written as determine each other, and no other byte stands for a
/// type.
pub proof fn law_codes_are_inverse(dtype: ChunkDtype, code: u8)
    ensures
        chunk_dtype_of(chunk_dtype_code(dtype)) == Some(dtype),
        chunk_dtype_of(code) == Some(dtype) ==> chunk_dtype_code(dtype) == code,
        chunk_dtype_of(code) is None <==> code >= 2,
        chunk_dtype_code(ChunkDtype::F32) == 0,
        chunk_dtype_code(ChunkDtype::F16) == 1,
{
}

/// A block of future actions.
#[derive(Debug)]
pub struct ActionChunk {
    pub horizon: u16,
    pub action_dim: u16,
    pub dtype: ChunkDtype,
    pub captured_at_us: u64,
    /// The values, packed and little-endian.
    pub payload: Vec<u8>,
}

/// What a chunk holds.
#[verifier::ext_equal]
pub struct ChunkView {
    pub horizon: u16,
    pub action_dim: u16,
    pub dtype: ChunkDtype,
    pub captured_at_us: u64,
    pub payload: Seq<u8>,
}

impl View for ActionChunk {
    type V = ChunkView;

    open spec fn view(&self) -> ChunkView {
        ChunkView {
            horizon: self.horizon,
            action_dim: self.action_dim,
            dtype: self.dtype,
            captured_at_us: self.captured_at_us,
            payload: self.payload@,
        }
    }
}

/// Bytes that the payload of a chunk has to have.
pub open spec fn expected_len(horizon: u16, action_dim: u16, dtype: ChunkDtype) -> nat {
    (horizon * action_dim) as nat * chunk_dtype_size(dtype)
}

impl ChunkView {
    /// The payload is as long as the header says.
    pub open spec fn sound(self) -> bool {
        self.payload.len() == expected_len(self.horizon, self.action_dim, self.dtype)
    }

    /// The chunk on the wire.
    pub open spec fn frame(self) -> Seq<u8> {
        magic() + seq![VERSION, chunk_dtype_code(self.dtype)] + le_bytes(self.horizon as nat, 2)
            + le_bytes(self.action_dim as nat, 2) + le_bytes(self.captured_at_us as nat, 8)
            + self.payload
    }
}

/// The complaint about a payload of the wrong length.
pub open spec fn mismatch_text(
    got: nat,
    against: Seq<char>,
    horizon: u16,
    action_dim: u16,
    dtype: ChunkDtype,
) -> Seq<char> {
    "chunk payload length "@ + decimal(got) + against + decimal(horizon as nat) + " * "@
        + decimal(action_dim as nat) + " * "@ + decimal(chunk_dtype_size(dtype)) + " = "@
        + decimal(expected_len(horizon, action_dim, dtype)) + ")"@
}

/// What is wrong with a frame, if anything, and why.
pub open spec fn frame_fault(bytes: Seq<u8>) -> Option<Seq<char>> {
    if bytes.len() < HEADER_LEN {
        Some("chunk frame too short: "@ + decimal(bytes.len()) + " < 18"@)
    } else if bytes.take(4) != magic() {
        Some("chunk frame magic mismatch"@)
    } else if bytes[4] != VERSION {
        Some(
            "chunk frame version "@ + decimal(bytes[4] as nat) + " unsupported (want 1)"@,
        )
    } else if bytes[5] > 1 {
        Some("unknown chunk dtype code "@ + decimal(bytes[5] as nat))
    } else {
        let header = header_of(bytes);
        if header.sound() {
            None
        } else {
            Some(
                mismatch_text(
                    header.payload.len(),
                    " does not match header ("@,
                    header.horizon,
                    header.action_dim,
                    header.dtype,
                ),
            )
        }
    }
}

/// The chunk that a frame with a known type holds.
pub open spec fn header_of(bytes: Seq<u8>) -> ChunkView {
    ChunkView {
        horizon: le_value(bytes.subrange(6, 8)) as u16,
        action_dim: le_value(bytes.subrange(8, 10)) as u16,
        dtype: if bytes[5] == 0 {
            ChunkDtype::F32
        } else {
            ChunkDtype::F16
        },
        captured_at_us: le_value(bytes.subrange(10, 18)) as u64,
        payload: bytes.skip(18),
    }
}

/// Bytes of a payload. They always fit, though they may exceed what a small machine can hold.
fn payload_len(horizon: u16, action_dim: u16, dtype: ChunkDtype) -> (len: u64)
    ensures
        len == expected_len(horizon, action_dim, dtype),
{
    assert(horizon * action_dim <= 0xffff * 0xffff) by (nonlinear_arith)
        requires
            0 <= horizon <= 0xffff,
            0 <= action_dim <= 0xffff,
    ;
    assert(horizon * action_dim >= 0) by (nonlinear_arith)
        requires
            0 <= horizon,
            0 <= action_dim,
    ;
    let count: u64 = horizon as u64 * action_dim as u64;
    match dtype {
        ChunkDtype::F32 => count * 4,
        ChunkDtype::F16 => count * 2,
    }
}

fn mismatch(got: usize, against: &str, horizon: u16, action_dim: u16, dtype: ChunkDtype) -> (text:
    String)
    ensures
        text@ == mismatch_text(got as nat, against@, horizon, action_dim, dtype),
{
    let mut text: String = "chunk payload length ".to_owned();
    push_decimal(&mut text, got as u64);
    text.append(against);
    push_decimal(&mut text, horizon as u64);
    text.append(" * ");
    push_decimal(&mut text, action_dim as u64);
    text.append(" * ");
    push_decimal(&mut text, dtype.size() as u64);
    text.append(" = ");
    push_decimal(&mut text, payload_len(horizon, action_dim, dtype));
    text.append(")");
    text
}

impl ActionChunk {
    /// Bytes that the payload has to have.
    pub fn expected_payload_len(&self) -> (len: usize)
        requires
            expected_len(self.horizon, self.action_dim, self.dtype) <= usize::MAX,
        ensures
            len == expected_len(self.horizon, self.action_dim, self.dtype),
    {
        payload_len(self.horizon, self.action_dim, self.dtype) as usize
    }
}

/// Writes a chunk. The length of its payload has to be right.
pub fn serialize_chunk(chunk: &ActionChunk) -> (frame: PortalResult<Vec<u8>>)
    ensures
        match frame {
            Ok(bytes) => chunk@.sound() && bytes@ == chunk@.frame(),
            Err(e) => !chunk@.sound() && e@ == ErrorView::Deserialization(
                mismatch_text(
                    chunk@.payload.len(),
                    " does not match H*K*dtype ("@,
                    chunk.horizon,
                    chunk.action_dim,
                    chunk.dtype,
                ),
            ),
        },
{
    let expected: u64 = payload_len(chunk.horizon, chunk.action_dim, chunk.dtype);
    if chunk.payload.len() as u64 != expected {
        return Err(
            PortalError::Deserialization(
                mismatch(
                    chunk.payload.len(),
                    " does not match H*K*dtype (",
                    chunk.horizon,
                    chunk.action_dim,
                    chunk.dtype,
                ),
            ),
        );
    }
    let mut out: Vec<u8> = Vec::new();
    out.push(0x50);
    out.push(0x43);
    out.push(0x48);
    out.push(0x4b);
    out.push(VERSION);
    out.push(chunk.dtype.code());
    assert(out@ =~= magic() + seq![VERSION, chunk_dtype_code(chunk.dtype)]);
    push_le(&mut out, chunk.horizon as u64, 2);
    push_le(&mut out, chunk.action_dim as u64, 2);
    push_le(&mut out, chunk.captured_at_us, 8);
    out.extend_from_slice(chunk.payload.as_slice());
    assert(out@ =~= chunk@.frame());
    Ok(out)
}

/// Reads a chunk.
pub fn deserialize_chunk(bytes: &[u8]) -> (chunk: PortalResult<ActionChunk>)
    ensures
        match chunk {
            Ok(c) => frame_fault(bytes@) is None && c@ == header_of(bytes@),
            Err(e) => frame_fault(bytes@) is Some && e@ == ErrorView::Deserialization(
                frame_fault(bytes@)->0,
            ),
        },
{
    if bytes.len() < HEADER_LEN {
        let mut text: String = "chunk frame too short: ".to_owned();
        push_decimal(&mut text, bytes.len() as u64);
        text.append(" < 18");
        return Err(PortalError::Deserialization(text));
    }
    if !(bytes[0] == 0x50 && bytes[1] == 0x43 && bytes[2] == 0x48 && bytes[3] == 0x4b) {
        assert(bytes@.take(4) != magic()) by {
            if bytes@.take(4) == magic() {
                assert(bytes@[0] == bytes@.take(4)[0]);
                assert(bytes@[1] == bytes@.take(4)[1]);
                assert(bytes@[2] == bytes@.take(4)[2]);
                assert(bytes@[3] == bytes@.take(4)[3]);
            }
        }
        return Err(PortalError::Deserialization("chunk frame magic mismatch".to_owned()));
    }
    assert(bytes@.take(4) =~= magic());
    if bytes[4] != VERSION {
        let mut text: String = "chunk frame version ".to_owned();
        push_decimal(&mut text, bytes[4] as u64);
        text.append(" unsupported (want 1)");
        return Err(PortalError::Deserialization(text));
    }
    let dtype: ChunkDtype = match ChunkDtype::from_code(bytes[5]) {
        Some(d) => d,
        None => {
            assert(chunk_dtype_code(ChunkDtype::F32) == 0);
            assert(chunk_dtype_code(ChunkDtype::F16) == 1);
            let mut text: String = "unknown chunk dtype code ".to_owned();
            push_decimal(&mut text, bytes[5] as u64);
            return Err(PortalError::Deserialization(text));
        },
    };
    proof {
        crate::wire::lemma_pow256();
    }
    let horizon: u16 = read_le(bytes, 6, 2) as u16;
    let action_dim: u16 = read_le(bytes, 8, 2) as u16;
    let captured_at_us: u64 = read_le(bytes, 10, 8);
    let payload = vstd::slice::slice_subrange(bytes, HEADER_LEN, bytes.len());
    assert(payload@ =~= bytes@.skip(18));
    assert(header_of(bytes@).dtype == dtype);
    if payload.len() as u64 != payload_len(horizon, action_dim, dtype) {
        return Err(
            PortalError::Deserialization(
                mismatch(
                    payload.len(),
                    " does not match header (",
                    horizon,
                    action_dim,
                    dtype,
                ),
            ),
        );
    }
    let mut copy: Vec<u8> = Vec::new();
    copy.extend_from_slice(payload);
    assert(copy@ =~= payload@);
    Ok(ActionChunk { horizon, action_dim, dtype, captured_at_us, payload: copy })
}

/// A chunk that could be written is read back as it was.
pub proof fn law_chunk_survives(chunk: ChunkView)
    requires
        chunk.sound(),
    ensures
        frame_fault(chunk.frame()) is None,
        header_of(chunk.frame()) == chunk,
{
    let frame = chunk.frame();
    crate::wire::lemma_pow256();
    crate::wire::lemma_le_bytes_len(chunk.horizon as nat, 2);
    crate::wire::lemma_le_bytes_len(chunk.action_dim as nat, 2);
    crate::wire::lemma_le_bytes_len(chunk.captured_at_us as nat, 8);
    crate::wire::law_write_then_read(chunk.horizon as nat, 2);
    crate::wire::law_write_then_read(chunk.action_dim as nat, 2);
    crate::wire::law_write_then_read(chunk.captured_at_us as nat, 8);
    assert(frame.take(4) =~= magic());
    assert(frame.subrange(6, 8) =~= le_bytes(chunk.horizon as nat, 2));
    assert(frame.subrange(8, 10) =~= le_bytes(chunk.action_dim as nat, 2));
    assert(frame.subrange(10, 18) =~= le_bytes(chunk.captured_at_us as nat, 8));
    assert(frame.skip(18) =~= chunk.payload);
}

/// A frame that can be read is exactly the one that its chunk is written as: there is no
/// second way to write a chunk.
pub proof fn law_frame_is_canonical(bytes: Seq<u8>)
    requires
        frame_fault(bytes) is None,
    ensures
        header_of(bytes).sound(),
        header_of(bytes).frame() == bytes,
{
    let chunk = header_of(bytes);
    crate::wire::lemma_pow256();
    crate::wire::lemma_le_value_bound(bytes.subrange(6, 8));
    crate::wire::lemma_le_value_bound(bytes.subrange(8, 10));
    crate::wire::lemma_le_value_bound(bytes.subrange(10, 18));
    crate::wire::law_read_then_write(bytes.subrange(6, 8));
    crate::wire::law_read_then_write(bytes.subrange(8, 10));
    crate::wire::law_read_then_write(bytes.subrange(10, 18));
    assert(bytes[0] == bytes.take(4)[0]);
    assert(bytes[1] == bytes.take(4)[1]);
    assert(bytes[2] == bytes.take(4)[2]);
    assert(bytes[3] == bytes.take(4)[3]);
    assert(chunk.frame() =~= bytes);
}

/// A frame is laid out as documented: four bytes of magic, the version, the type, two bytes each
/// for the horizon and the dimension and eight for the time, lowest byte first, and the payload.
pub proof fn law_frame_layout(chunk: ChunkView)
    ensures
        ({
            let frame = chunk.frame();
            &&& frame.len() == 18 + chunk.payload.len()
            &&& frame[0] == 0x50
            &&& frame[1] == 0x43
            &&& frame[2] == 0x48
            &&& frame[3] == 0x4b
            &&& frame[4] == 1
            &&& frame[5] == match chunk.dtype {
                ChunkDtype::F32 => 0u8,
                ChunkDtype::F16 => 1,
            }
            &&& frame[6] + 256 * frame[7] == chunk.horizon
            &&& frame[8] + 256 * frame[9] == chunk.action_dim
            &&& frame[10] + 0x100 * frame[11] + 0x1_0000 * frame[12] + 0x100_0000 * frame[13]
                + 0x1_0000_0000 * frame[14] + 0x100_0000_0000 * frame[15] + 0x1_0000_0000_0000
                * frame[16] + 0x100_0000_0000_0000 * frame[17] == chunk.captured_at_us
            &&& frame.skip(18) == chunk.payload
        }),
{
    let frame = chunk.frame();
    let time = le_bytes(chunk.captured_at_us as nat, 8);
    reveal_with_fuel(le_bytes, 9);
    crate::wire::lemma_le_bytes_len(chunk.horizon as nat, 2);
    crate::wire::lemma_le_bytes_len(chunk.action_dim as nat, 2);
    crate::wire::lemma_le_bytes_len(chunk.captured_at_us as nat, 8);
    assert(frame.skip(18) =~= chunk.payload);
    assert(frame[6] == le_bytes(chunk.horizon as nat, 2)[0]);
    assert(frame[7] == le_bytes(chunk.horizon as nat, 2)[1]);
    assert(frame[8] == le_bytes(chunk.action_dim as nat, 2)[0]);
    assert(frame[9] == le_bytes(chunk.action_dim as nat, 2)[1]);
    assert(frame[10] == time[0]);
    assert(frame[11] == time[1]);
    assert(frame[12] == time[2]);
    assert(frame[13] == time[3]);
    assert(frame[14] == time[4]);
    assert(frame[15] == time[5]);
    assert(frame[16] == time[6]);
    assert(frame[17] == time[7]);
}

/// A chunk has one value for every step and dimension, of four bytes or of two.
pub proof fn law_payload_length(chunk: ChunkView)
    ensures
        chunk.sound() <==> chunk.payload.len() == (chunk.horizon * chunk.action_dim)
            * match chunk.dtype {
            ChunkDtype::F32 => 4int,
            ChunkDtype::F16 => 2,
        },
{
    assert(chunk.horizon * chunk.action_dim >= 0) by (nonlinear_arith)
        requires
            chunk.horizon >= 0,
            chunk.action_dim >= 0,
    ;
}

/// A frame can be read exactly where it has a header with the magic, the version and a known type,
/// and as many bytes behind it as the header says.
pub proof fn law_readable_frames(bytes: Seq<u8>)
    ensures
        frame_fault(bytes) is None <==> {
            &&& bytes.len() >= 18
            &&& bytes[0] == 0x50 && bytes[1] == 0x43 && bytes[2] == 0x48 && bytes[3] == 0x4b
            &&& bytes[4] == 1
            &&& bytes[5] == 0 || bytes[5] == 1
            &&& bytes.len() - 18 == ((bytes[6] + 256 * bytes[7]) * (bytes[8] + 256 * bytes[9]))
                * if bytes[5] == 0 {
                4int
            } else {
                2
            }
        },
{
    if bytes.len() >= 18 {
        let chunk = header_of(bytes);
        let h = bytes.subrange(6, 8);
        let d = bytes.subrange(8, 10);
        reveal_with_fuel(le_value, 3);
        assert(le_value(h) == h[0] + 256 * h[1]);
        assert(le_value(d) == d[0] + 256 * d[1]);
        assert(chunk.horizon == bytes[6] + 256 * bytes[7]);
        assert(chunk.action_dim == bytes[8] + 256 * bytes[9]);
        law_payload_length(chunk);
        assert(bytes.take(4) =~= magic() <==> {
            &&& bytes.take(4)[0] == 0x50
            &&& bytes.take(4)[1] == 0x43
            &&& bytes.take(4)[2] == 0x48
            &&& bytes.take(4)[3] == 0x4b
        });
    }
}

/// The complaint about a payload names the length that it has before anything else, and ends with
/// the one that it should have.
pub proof fn law_length_complaint_tells(
    got: nat,
    against: Seq<char>,
    horizon: u16,
    action_dim: u16,
    dtype: ChunkDtype,
)
    ensures
        ("chunk payload length "@ + decimal(got)).is_prefix_of(
            mismatch_text(got, against, horizon, action_dim, dtype),
        ),
        (decimal(
            ((horizon * action_dim) * match dtype {
                ChunkDtype::F32 => 4int,
                ChunkDtype::F16 => 2,
            }) as nat,
        ) + ")"@).is_suffix_of(mismatch_text(got, against, horizon, action_dim, dtype)),
{
    let text = mismatch_text(got, against, horizon, action_dim, dtype);
    let first = "chunk payload length "@ + decimal(got);
    assert(horizon * action_dim >= 0) by (nonlinear_arith)
        requires
            horizon >= 0,
            action_dim >= 0,
    ;
    assert(first =~= text.subrange(0, first.len() as int));
    let last = decimal(expected_len(horizon, action_dim, dtype)) + ")"@;
    assert(last =~= text.subrange(text.len() - last.len(), text.len() as int));
}

} // verus!
