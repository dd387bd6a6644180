//! The declared types of state and action fields and their form on the wire.

use vstd::prelude::*;

use crate::double::{Double, Single, SIGN_SINGLE};
use crate::error::{ErrorView, PortalError, PortalResult};
use crate::text::{decimal, push_decimal};
use crate::wire::{le_bytes, le_value, push_le, read_le};

verus! {

/// Declared type of a state or action field. Values are doubles everywhere but on the wire,
/// where the declared type gives their width and form.
#[derive(Debug, Clone, Copy, PartialEq, Eq, Structural)]
pub enum DType {
    F64,
    F32,
    I32,
    I16,
    I8,
    U32,
    U16,
    U8,
    Bool,
}

/// The name of a type.
pub open spec fn dtype_name(dtype: DType) -> Seq<char> {
    match dtype {
        DType::F64 => "F64"@,
        DType::F32 => "F32"@,
        DType::I32 => "I32"@,
        DType::I16 => "I16"@,
        DType::I8 => "I8"@,
        DType::U32 => "U32"@,
        DType::U16 => "U16"@,
        DType::U8 => "U8"@,
        DType::Bool => "Bool"@,
    }
}

/// Bytes of a type on the wire.
pub open spec fn dtype_size(dtype: DType) -> nat {
    match dtype {
        DType::F64 => 8,
        DType::F32 | DType::I32 | DType::U32 => 4,
        DType::I16 | DType::U16 => 2,
        DType::I8 | DType::U8 | DType::Bool => 1,
    }
}

/// The integers that a type holds, lowest and highest.
pub open spec fn dtype_range(dtype: DType) -> (int, int) {
    match dtype {
        DType::I32 => (-0x8000_0000, 0x7fff_ffff),
        DType::I16 => (-0x8000, 0x7fff),
        DType::I8 => (-0x80, 0x7f),
        DType::U32 => (0, 0xffff_ffff),
        DType::U16 => (0, 0xffff),
        DType::U8 => (0, 0xff),
        _ => (0, 1),
    }
}

/// `n` in two's complement with `size` bytes.
pub open spec fn wrapped(n: int, size: nat) -> nat {
    if n < 0 {
        (n + crate::wire::pow256(size)) as nat
    } else {
        n as nat
    }
}

/// The bytes of a value on the wire. Integers saturate; a boolean is set for every number but
/// zero.
pub open spec fn encoded(dtype: DType, v: Double) -> Seq<u8> {
    match dtype {
        DType::F64 => le_bytes(v.bits as nat, 8),
        DType::F32 => le_bytes(
            (v.narrowed() + if v.negative() {
                SIGN_SINGLE as int
            } else {
                0
            }) as nat,
            4,
        ),
        DType::Bool => seq![
            if v.truthy() {
                1u8
            } else {
                0u8
            },
        ],
        _ => {
            let (low, high) = dtype_range(dtype);
            le_bytes(wrapped(v.saturated(low, high), dtype_size(dtype)), dtype_size(dtype))
        },
    }
}

/// The bytes stand for the value `v`.
pub open spec fn decodes_to(dtype: DType, bytes: Seq<u8>, v: Double) -> bool {
    let x = le_value(bytes) as int;
    match dtype {
        DType::F64 => v.bits == x,
        DType::F32 => (Single { bits: x as u32 }).widens_to(v),
        DType::Bool => v.is_integer(
            if bytes[0] == 0 {
                0
            } else {
                1
            },
        ),
        _ => v.is_integer(
            if x > dtype_range(dtype).1 {
                x - crate::wire::pow256(dtype_size(dtype))
            } else {
                x
            },
        ),
    }
}

/// The wire does not carry the value, not even without its fractional part: an integer is out
/// of range, or an integer or a boolean is no number at all.
pub open spec fn saturates(dtype: DType, v: Double) -> bool {
    match dtype {
        DType::F64 | DType::F32 => false,
        DType::Bool => v.nan(),
        _ => v.clipped(dtype_range(dtype).0, dtype_range(dtype).1),
    }
}

/// The complaint about too few bytes.
pub open spec fn short_text(dtype: DType, got: nat) -> Seq<char> {
    "dtype "@ + dtype_name(dtype) + " needs "@ + decimal(dtype_size(dtype)) + " bytes, got "@
        + decimal(got)
}

impl DType {
    /// The name of the type.
    pub fn name(&self) -> (name: &'static str)
        ensures
            name@ == dtype_name(*self),
    {
        match self {
            DType::F64 => "F64",
            DType::F32 => "F32",
            DType::I32 => "I32",
            DType::I16 => "I16",
            DType::I8 => "I8",
            DType::U32 => "U32",
            DType::U16 => "U16",
            DType::U8 => "U8",
            DType::Bool => "Bool",
        }
    }

    /// Byte width on the wire.
    pub fn size_bytes(self) -> (size: usize)
        ensures
            size == dtype_size(self),
            1 <= size <= 8,
    {
        match self {
            DType::F64 => 8,
            DType::F32 | DType::I32 | DType::U32 => 4,
            DType::I16 | DType::U16 => 2,
            DType::I8 | DType::U8 | DType::Bool => 1,
        }
    }

    /// Appends a value in the form of the type.
    pub fn encode(self, v: Double, out: &mut Vec<u8>)
        ensures
            final(out)@ == old(out)@ + encoded(self, v),
    {
        proof {
            crate::wire::lemma_pow256();
        }
        match self {
            DType::F64 => push_le(out, v.to_bits(), 8),
            DType::F32 => push_le(out, v.narrow().bits as u64, 4),
            DType::I32 => push_signed(out, v.saturate_signed(0x7fff_ffff), 4),
            DType::I16 => push_signed(out, v.saturate_signed(0x7fff), 2),
            DType::I8 => push_signed(out, v.saturate_signed(0x7f), 1),
            DType::U32 => push_le(out, v.saturate_unsigned(0xffff_ffff) as u64, 4),
            DType::U16 => push_le(out, v.saturate_unsigned(0xffff) as u64, 2),
            DType::U8 => push_le(out, v.saturate_unsigned(0xff) as u64, 1),
            DType::Bool => {
                out.push(
                    if v.is_truthy() {
                        1
                    } else {
                        0
                    },
                );
                assert(out@ =~= old(out)@ + encoded(self, v));
            },
        }
    }

    /// Whether the wire does not carry the value, not even without its fractional part.
    pub fn saturates(self, v: Double) -> (saturates: bool)
        ensures
            saturates == self::saturates(self, v),
    {
        match self {
            DType::F64 | DType::F32 => false,
            DType::Bool => v.is_nan(),
            DType::I32 => v.is_clipped(0x8000_0000, 0x7fff_ffff),
            DType::I16 => v.is_clipped(0x8000, 0x7fff),
            DType::I8 => v.is_clipped(0x80, 0x7f),
            DType::U32 => v.is_clipped(0, 0xffff_ffff),
            DType::U16 => v.is_clipped(0, 0xffff),
            DType::U8 => v.is_clipped(0, 0xff),
        }
    }

    /// The value that the first bytes of `buf` stand for.
    pub fn decode(self, buf: &[u8]) -> (value: PortalResult<Double>)
        ensures
            match value {
                Ok(v) => buf@.len() >= dtype_size(self) && decodes_to(
                    self,
                    buf@.take(dtype_size(self) as int),
                    v,
                ),
                Err(e) => buf@.len() < dtype_size(self) && e@ == ErrorView::Deserialization(
                    short_text(self, buf@.len()),
                ),
            },
    {
        let need: usize = self.size_bytes();
        if buf.len() < need {
            let mut text: String = "dtype ".to_owned();
            text.append(self.name());
            text.append(" needs ");
            push_decimal(&mut text, need as u64);
            text.append(" bytes, got ");
            push_decimal(&mut text, buf.len() as u64);
            return Err(PortalError::Deserialization(text));
        }
        let x: u64 = read_le(buf, 0, need);
        proof {
            crate::wire::lemma_pow256();
            assert(buf@.take(need as int) =~= buf@.subrange(0, need as int));
        }
        let v: Double = match self {
            DType::F64 => Double::from_bits(x),
            DType::F32 => Single { bits: x as u32 }.widen(),
            DType::I32 => Double::from_signed(signed(x, 0x8000_0000)),
            DType::I16 => Double::from_signed(signed(x, 0x8000)),
            DType::I8 => Double::from_signed(signed(x, 0x80)),
            DType::U32 | DType::U16 | DType::U8 => Double::from_unsigned(x as u32),
            DType::Bool => Double::from_unsigned(
                if buf[0] == 0 {
                    0
                } else {
                    1
                },
            ),
        };
        Ok(v)
    }
}

fn push_signed(out: &mut Vec<u8>, n: i32, size: usize)
    requires
        size == 1 && -0x80 <= n || size == 2 && -0x8000 <= n || size == 4,
    ensures
        final(out)@ == old(out)@ + le_bytes(wrapped(n as int, size as nat), size as nat),
{
    proof {
        crate::wire::lemma_pow256();
    }
    let modulus: i64 = if size == 1 {
        0x100
    } else if size == 2 {
        0x1_0000
    } else {
        0x1_0000_0000
    };
    let x: i64 = if n < 0 {
        n as i64 + modulus
    } else {
        n as i64
    };
    push_le(out, x as u64, size);
}

/// The integer that `x` stands for in two's complement, with the sign bit `sign`.
fn signed(x: u64, sign: u64) -> (n: i32)
    requires
        0 < sign <= 0x8000_0000,
        x < 2 * sign,
    ensures
        n == if x >= sign {
            x - 2 * sign
        } else {
            x as int
        },
{
    if x >= sign {
        (x as i64 - 2 * sign as i64) as i32
    } else {
        x as i32
    }
}

/// What a value has become once it was written and read back.
pub open spec fn carried(dtype: DType, v: Double, back: Double) -> bool {
    match dtype {
        DType::F64 => back == v,
        DType::F32 => (Single {
            bits: (v.narrowed() + if v.negative() {
                SIGN_SINGLE as int
            } else {
                0
            }) as u32,
        }).widens_to(back),
        DType::Bool => back.is_integer(
            if v.truthy() {
                1
            } else {
                0
            },
        ),
        _ => back.is_integer(v.saturated(dtype_range(dtype).0, dtype_range(dtype).1)),
    }
}

/// The width on the wire is that of the type.
pub proof fn lemma_encoded_len(dtype: DType, v: Double)
    ensures
        encoded(dtype, v).len() == dtype_size(dtype),
{
    match dtype {
        DType::F64 => {
            crate::wire::lemma_le_bytes_len(v.bits as nat, 8);
        },
        DType::F32 => {
            crate::wire::lemma_le_bytes_len(
                (v.narrowed() + if v.negative() {
                    SIGN_SINGLE as int
                } else {
                    0
                }) as nat,
                4,
            );
        },
        DType::Bool => {},
        _ => {
            let (low, high) = dtype_range(dtype);
            crate::wire::lemma_le_bytes_len(
                wrapped(v.saturated(low, high), dtype_size(dtype)),
                dtype_size(dtype),
            );
        },
    }
}

/// Reading gives back what was written: doubles unchanged, singles to single precision,
/// integers saturated, booleans as zero or one.
pub proof fn law_encode_then_decode(dtype: DType, v: Double, back: Double)
    requires
        decodes_to(dtype, encoded(dtype, v), back),
    ensures
        carried(dtype, v, back),
{
    crate::wire::lemma_pow256();
    match dtype {
        DType::F64 => {
            crate::wire::law_write_then_read(v.bits as nat, 8);
        },
        DType::F32 => {
            v.lemma_narrowed_bound();
            crate::wire::law_write_then_read(
                (v.narrowed() + if v.negative() {
                    SIGN_SINGLE as int
                } else {
                    0
                }) as nat,
                4,
            );
        },
        DType::Bool => {},
        _ => {
            let (low, high) = dtype_range(dtype);
            v.lemma_saturated_bound(low, high);
            crate::wire::law_write_then_read(
                wrapped(v.saturated(low, high), dtype_size(dtype)),
                dtype_size(dtype),
            );
        },
    }
}

/// Writing gives back what was read. Left out are a single that is no number, whose payload
/// may change, and a boolean written as more than one.
pub proof fn law_decode_then_encode(dtype: DType, bytes: Seq<u8>, v: Double)
    requires
        bytes.len() == dtype_size(dtype),
        decodes_to(dtype, bytes, v),
        dtype == DType::Bool ==> bytes[0] <= 1,
        dtype == DType::F32 ==> !(Single { bits: le_value(bytes) as u32 }).nan(),
    ensures
        encoded(dtype, v) == bytes,
{
    let x = le_value(bytes);
    crate::wire::lemma_pow256();
    crate::wire::lemma_le_value_bound(bytes);
    crate::wire::law_read_then_write(bytes);
    match dtype {
        DType::F64 => {},
        DType::F32 => {
            let single = Single { bits: x as u32 };
            v.lemma_narrowed_bound();
            let back = Single {
                bits: (v.narrowed() + if v.negative() {
                    SIGN_SINGLE as int
                } else {
                    0
                }) as u32,
            };
            crate::double::law_single_survives_widening(single, v, back);
        },
        DType::Bool => {
            crate::double::law_integer_saturates_to_itself(v, bytes[0] as int, 0, 1);
            v.lemma_truthy_integer(bytes[0] as int);
            assert(encoded(dtype, v) =~= bytes);
        },
        _ => {
            let (low, high) = dtype_range(dtype);
            let n = if x > high {
                x - crate::wire::pow256(dtype_size(dtype))
            } else {
                x as int
            };
            crate::double::law_integer_saturates_to_itself(v, n, low, high);
        },
    }
}

/// An integer arrives as itself where its type holds it and as the nearest that its type holds
/// otherwise, and exactly then it is told to be out of range; a double arrives as it is, and as a
/// boolean everything but zero arrives as one.
pub proof fn law_integers_arrive(dtype: DType, v: Double, n: int, back: Double)
    requires
        v.is_integer(n),
        carried(dtype, v, back),
    ensures
        dtype == DType::F64 ==> back == v && !saturates(dtype, v),
        dtype == DType::F32 ==> !saturates(dtype, v),
        dtype == DType::Bool ==> !saturates(dtype, v) && back.is_integer(
            if n == 0 {
                0
            } else {
                1
            },
        ),
        ({
            let (low, high) = match dtype {
                DType::I32 => (-2147483648int, 2147483647int),
                DType::I16 => (-32768, 32767),
                DType::I8 => (-128, 127),
                DType::U32 => (0, 4294967295),
                DType::U16 => (0, 65535),
                DType::U8 => (0, 255),
                _ => (0, 0),
            };
            low < high ==> {
                &&& low <= n <= high ==> back.is_integer(n) && !saturates(dtype, v)
                &&& n < low ==> back.is_integer(low) && saturates(dtype, v)
                &&& n > high ==> back.is_integer(high) && saturates(dtype, v)
            }
        }),
{
    let (low, high) = dtype_range(dtype);
    crate::double::law_bounds_are_kept(v, n, low, high);
    crate::double::lemma_integer_is_whole(v, n);
    if low <= n <= high {
        crate::double::law_integer_saturates_to_itself(v, n, low, high);
    }
    if dtype == DType::Bool {
        v.lemma_truthy_integer(n);
    }
}

/// What is no number arrives as zero in every type but the floating ones and is told; an infinity
/// arrives as the bound on its side and is told, but as one in a boolean.
pub proof fn law_no_number_arrives_as_zero(dtype: DType, v: Double, back: Double)
    requires
        carried(dtype, v, back),
        dtype != DType::F64,
        dtype != DType::F32,
    ensures
        v.nan() ==> back.is_integer(0) && saturates(dtype, v),
        v.infinite() && dtype == DType::Bool ==> back.is_integer(1) && !saturates(dtype, v),
        v.infinite() && dtype != DType::Bool ==> saturates(dtype, v) && back.is_integer(
            if v.negative() {
                dtype_range(dtype).0
            } else {
                dtype_range(dtype).1
            },
        ),
{
}

/// An integer that its type holds is written in two's complement, lowest byte first; a double by
/// its bits.
pub proof fn law_integers_are_written(dtype: DType, v: Double, n: int)
    requires
        v.is_integer(n),
    ensures
        dtype == DType::F64 ==> le_value(encoded(dtype, v)) == v.bits,
        dtype == DType::I32 && -0x8000_0000 <= n <= 0x7fff_ffff ==> le_value(encoded(dtype, v))
            == n % 0x1_0000_0000,
        dtype == DType::I16 && -0x8000 <= n <= 0x7fff ==> le_value(encoded(dtype, v)) == n
            % 0x1_0000,
        dtype == DType::I8 && -0x80 <= n <= 0x7f ==> le_value(encoded(dtype, v)) == n % 0x100,
        dtype == DType::U32 && 0 <= n <= 0xffff_ffff ==> le_value(encoded(dtype, v)) == n,
        dtype == DType::U16 && 0 <= n <= 0xffff ==> le_value(encoded(dtype, v)) == n,
        dtype == DType::U8 && 0 <= n <= 0xff ==> le_value(encoded(dtype, v)) == n,
        dtype == DType::Bool ==> encoded(dtype, v) == seq![
            if n == 0 {
                0u8
            } else {
                1u8
            },
        ],
        encoded(dtype, v).len() == dtype_size(dtype),
{
    let (low, high) = dtype_range(dtype);
    crate::wire::lemma_pow256();
    lemma_encoded_len(dtype, v);
    match dtype {
        DType::F64 => {
            crate::wire::law_write_then_read(v.bits as nat, 8);
        },
        DType::F32 => {},
        DType::Bool => {
            v.lemma_truthy_integer(n);
        },
        _ => {
            if low <= n <= high {
                crate::double::law_integer_saturates_to_itself(v, n, low, high);
                crate::wire::law_write_then_read(
                    wrapped(n, dtype_size(dtype)),
                    dtype_size(dtype),
                );
            }
        },
    }
}

/// Every type has its own name.
pub proof fn law_types_have_names(dtype: DType, other: DType)
    ensures
        dtype != other ==> dtype_name(dtype) != dtype_name(other),
        dtype == DType::F64 ==> dtype_name(dtype) == "F64"@,
        dtype == DType::F32 ==> dtype_name(dtype) == "F32"@,
        dtype == DType::I32 ==> dtype_name(dtype) == "I32"@,
        dtype == DType::I16 ==> dtype_name(dtype) == "I16"@,
        dtype == DType::I8 ==> dtype_name(dtype) == "I8"@,
        dtype == DType::U32 ==> dtype_name(dtype) == "U32"@,
        dtype == DType::U16 ==> dtype_name(dtype) == "U16"@,
        dtype == DType::U8 ==> dtype_name(dtype) == "U8"@,
        dtype == DType::Bool ==> dtype_name(dtype) == "Bool"@,
{
    reveal_strlit("F64");
    reveal_strlit("F32");
    reveal_strlit("I32");
    reveal_strlit("I16");
    reveal_strlit("I8");
    reveal_strlit("U32");
    reveal_strlit("U16");
    reveal_strlit("U8");
    reveal_strlit("Bool");
    let a = dtype_name(dtype);
    let b = dtype_name(other);
    if a == b {
        assert(a[0] == b[0] && a[1] == b[1]);
        assert(a.len() == b.len());
    }
}

} // verus!
