use livekit_portal::double::{Double, Single};
use livekit_portal::dtype::DType;
use livekit_portal::error::PortalError;
use livekit_portal::serialization::{deserialize_values, schema_size, serialize_values};

fn d(v: f64) -> Double {
    Double::from_bits(v.to_bits())
}

fn f(v: Double) -> f64 {
    f64::from_bits(v.to_bits())
}

fn ds(vs: &[f64]) -> Vec<Double> {
    vs.iter().map(|v| d(*v)).collect()
}

fn fs(vs: &[Double]) -> Vec<f64> {
    vs.iter().map(|v| f(*v)).collect()
}

fn roundtrip(dtype: DType, v: f64) -> f64 {
    let mut buf = Vec::new();
    dtype.encode(d(v), &mut buf);
    assert_eq!(buf.len(), dtype.size_bytes());
    f(dtype.decode(&buf).unwrap())
}

#[test]
fn dtype_f64_roundtrip() {
    assert_eq!(roundtrip(DType::F64, 3.14159265358979), 3.14159265358979);
}

#[test]
fn f32_lossy_roundtrip() {
    let r = roundtrip(DType::F32, 1.5);
    assert_eq!(r, 1.5);
}

#[test]
fn int_saturates_on_overflow() {
    assert_eq!(roundtrip(DType::I8, 500.0), 127.0);
    assert_eq!(roundtrip(DType::I8, -500.0), -128.0);
    assert_eq!(roundtrip(DType::U8, -5.0), 0.0);
    assert_eq!(roundtrip(DType::U8, 1000.0), 255.0);
}

#[test]
fn bool_maps_zero_and_nonzero() {
    assert_eq!(roundtrip(DType::Bool, 0.0), 0.0);
    assert_eq!(roundtrip(DType::Bool, 1.0), 1.0);
    assert_eq!(roundtrip(DType::Bool, -3.2), 1.0);
    assert_eq!(roundtrip(DType::Bool, f64::NAN), 0.0);
}

#[test]
fn decode_buffer_too_short() {
    let buf = [0u8; 3];
    assert!(DType::F64.decode(&buf).is_err());
}

#[test]
fn serialization_f64_roundtrip() {
    let ts = 1_713_300_000_000u64;
    let values = vec![1.0, 2.5, -3.14];
    let schema = vec![DType::F64, DType::F64, DType::F64];
    let bytes = serialize_values(ts, &ds(&values), &schema);
    let (ts2, values2) = deserialize_values(&bytes, &schema).unwrap();
    assert_eq!(ts, ts2);
    assert_eq!(values, fs(&values2));
}

#[test]
fn mixed_dtype_roundtrip() {
    let ts = 42u64;
    let values = vec![1.5, 127.0, 1.0, 65535.0];
    let schema = vec![DType::F32, DType::I8, DType::Bool, DType::U16];
    let bytes = serialize_values(ts, &ds(&values), &schema);
    assert_eq!(bytes.len(), 8 + 4 + 1 + 1 + 2);
    let (ts2, values2) = deserialize_values(&bytes, &schema).unwrap();
    assert_eq!(ts, ts2);
    assert_eq!(fs(&values2), vec![1.5, 127.0, 1.0, 65535.0]);
}

#[test]
fn empty_schema() {
    let ts = 42u64;
    let values: Vec<f64> = vec![];
    let schema: Vec<DType> = vec![];
    let bytes = serialize_values(ts, &ds(&values), &schema);
    assert_eq!(bytes.len(), 8);
    let (ts2, values2) = deserialize_values(&bytes, &schema).unwrap();
    assert_eq!(ts, ts2);
    assert!(values2.is_empty());
}

#[test]
fn wrong_length_errors() {
    let bytes = vec![0u8; 10];
    let schema = vec![DType::F64];
    assert!(deserialize_values(&bytes, &schema).is_err());
}

#[test]
fn int_values_saturate_on_send() {
    let schema = vec![DType::I8];
    let bytes = serialize_values(0, &[d(500.0)], &schema);
    let (_, vals) = deserialize_values(&bytes, &schema).unwrap();
    assert_eq!(fs(&vals), vec![127.0]);
}

/// Values around every boundary that the conversions distinguish.
fn samples() -> Vec<f64> {
    let mut out = vec![
        0.0,
        -0.0,
        0.4,
        0.5,
        0.999999,
        1.0,
        1.5,
        2.5,
        -0.5,
        -1.0,
        -1.9,
        126.5,
        127.0,
        127.9,
        128.0,
        -128.0,
        -128.9,
        -129.0,
        255.0,
        255.9,
        256.0,
        32767.4,
        32768.0,
        -32768.9,
        65535.7,
        65536.0,
        2147483646.9,
        2147483647.0,
        2147483648.0,
        -2147483648.5,
        -2147483649.0,
        4294967295.0,
        4294967296.0,
        1e300,
        -1e300,
        f64::MIN_POSITIVE,
        5e-324,
        f64::MAX,
        f64::INFINITY,
        f64::NEG_INFINITY,
        f32::MAX as f64,
        f32::MIN_POSITIVE as f64,
        1e-45,
        7e-46,
        7.1e-46,
        1.0000001,
        1.00000005960464477539,
        1.00000017881393432617,
        3.4028235677973366e38,
        3.4028235677973362e38,
        16777217.0,
        16777219.0,
    ];
    // A walk through bit patterns of all magnitudes.
    let mut bits: u64 = 0x0123_4567_89ab_cdef;
    for _ in 0..2000 {
        bits = bits.wrapping_mul(6364136223846793005).wrapping_add(1442695040888963407);
        out.push(f64::from_bits(bits));
        out.push((bits >> 32) as f64 / 3.0);
        out.push(f32::from_bits((bits >> 17) as u32) as f64);
    }
    out
}

#[test]
fn saturation_agrees_with_the_machine() {
    for v in samples() {
        assert_eq!(d(v).saturate_unsigned(u32::MAX), v as u32, "{v:?}");
        assert_eq!(d(v).saturate_unsigned(255), v as u8 as u32, "{v:?}");
        assert_eq!(d(v).saturate_signed(i32::MAX), v as i32, "{v:?}");
        assert_eq!(d(v).saturate_signed(32767), v as i16 as i32, "{v:?}");
        assert_eq!(d(v).is_nan(), v.is_nan());
        assert_eq!(d(v).is_truthy(), v != 0.0 && !v.is_nan(), "{v:?}");
    }
    assert_eq!(d(f64::NAN).saturate_signed(127), 0);
}

#[test]
fn narrowing_and_widening_agree_with_the_machine() {
    for v in samples() {
        if v.is_nan() {
            continue;
        }
        let single: Single = d(v).narrow();
        let mut buf = Vec::new();
        DType::F32.encode(d(v), &mut buf);
        assert_eq!(buf, (v as f32).to_le_bytes().to_vec(), "{v:?}");
        assert_eq!(f(single.widen()).to_bits(), (v as f32 as f64).to_bits(), "{v:?}");
    }
    let mut buf = Vec::new();
    DType::F32.encode(d(f64::NAN), &mut buf);
    assert!(f(DType::F32.decode(&buf).unwrap()).is_nan());
}

#[test]
fn integers_become_doubles_exactly() {
    for n in [0u32, 1, 2, 3, 127, 128, 255, 65535, 16777217, u32::MAX - 1, u32::MAX] {
        assert_eq!(f(Double::from_unsigned(n)), n as f64);
    }
    for n in [0i32, 1, -1, 127, -128, 32767, -32768, i32::MAX, i32::MIN, i32::MIN + 1] {
        assert_eq!(f(Double::from_signed(n)), n as f64);
    }
}

#[test]
fn every_dtype_has_its_name_and_width() {
    let table = [
        (DType::F64, "F64", 8),
        (DType::F32, "F32", 4),
        (DType::I32, "I32", 4),
        (DType::I16, "I16", 2),
        (DType::I8, "I8", 1),
        (DType::U32, "U32", 4),
        (DType::U16, "U16", 2),
        (DType::U8, "U8", 1),
        (DType::Bool, "Bool", 1),
    ];
    let mut total: u128 = 0;
    for (dtype, name, size) in table {
        assert_eq!(dtype.name(), name);
        assert_eq!(dtype.size_bytes(), size);
        let text = dtype.decode(&[]).unwrap_err().message();
        assert_eq!(
            text,
            format!("deserialization error: dtype {name} needs {size} bytes, got 0")
        );
        total += size as u128;
    }
    let all: Vec<DType> = table.iter().map(|t| t.0).collect();
    assert_eq!(schema_size(&all), total);
}

#[test]
fn decoded_bytes_encode_to_themselves() {
    let bytes = [0x9c, 0xff, 0x12, 0x80, 0x01, 0x02, 0x03, 0x40];
    for dtype in [
        DType::F64,
        DType::F32,
        DType::I32,
        DType::I16,
        DType::I8,
        DType::U32,
        DType::U16,
        DType::U8,
    ] {
        let n = dtype.size_bytes();
        let mut out = Vec::new();
        dtype.encode(dtype.decode(&bytes).unwrap(), &mut out);
        assert_eq!(out, bytes[..n].to_vec(), "{dtype:?}");
    }
    assert_eq!(f(DType::I8.decode(&bytes).unwrap()), -100.0);
    assert_eq!(f(DType::I16.decode(&bytes).unwrap()), -100.0);
    assert_eq!(f(DType::U16.decode(&bytes).unwrap()), 65436.0);
    assert_eq!(f(DType::Bool.decode(&[7]).unwrap()), 1.0);
}

#[test]
fn a_row_of_the_wrong_length_is_named() {
    let schema = [DType::F64, DType::U8];
    match deserialize_values(&[0u8; 10], &schema) {
        Err(PortalError::Deserialization(text)) => {
            assert_eq!(text, "expected 17 bytes, got 10");
        }
        other => panic!("{other:?}"),
    }
}
