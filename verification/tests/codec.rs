use livekit_portal::codec::{
    accept_decoded, accept_encoded, decode_frame, encode_frame, Codec, CodecError, DecodedFrame,
};

fn gradient(w: u32, h: u32) -> Vec<u8> {
    let mut out = Vec::with_capacity((w * h * 3) as usize);
    for y in 0..h {
        for x in 0..w {
            out.push((x % 256) as u8);
            out.push((y % 256) as u8);
            out.push(((x + y) % 256) as u8);
        }
    }
    out
}

#[test]
fn raw_roundtrip_is_byte_exact() {
    let rgb = gradient(64, 48);
    let bytes = encode_frame(&rgb, 64, 48, Codec::Raw, 0).unwrap();
    assert_eq!(bytes, rgb, "raw encode is identity");
    let decoded = decode_frame(&bytes, Codec::Raw, 64, 48).unwrap();
    assert_eq!(decoded.rgb, rgb);
    assert_eq!((decoded.width, decoded.height), (64, 48));
}

#[test]
fn png_roundtrip_is_byte_exact() {
    let rgb = gradient(64, 48);
    let bytes = encode_frame(&rgb, 64, 48, Codec::Png, 0).unwrap();
    assert!(bytes.len() < rgb.len() * 2, "png shouldn't grow much over raw");
    let decoded = decode_frame(&bytes, Codec::Png, 64, 48).unwrap();
    assert_eq!(decoded.rgb, rgb, "PNG is lossless");
    assert_eq!((decoded.width, decoded.height), (64, 48));
}

#[test]
fn mjpeg_roundtrip_is_close() {
    let rgb = gradient(64, 48);
    let bytes = encode_frame(&rgb, 64, 48, Codec::Mjpeg, 95).unwrap();
    assert!(bytes.len() < rgb.len(), "jpeg should shrink the payload");
    let decoded = decode_frame(&bytes, Codec::Mjpeg, 64, 48).unwrap();
    assert_eq!((decoded.width, decoded.height), (64, 48));
    // JPEG is lossy; check the average per-pixel error is small.
    let total: u64 = rgb
        .iter()
        .zip(decoded.rgb.iter())
        .map(|(a, b)| (*a as i32 - *b as i32).unsigned_abs() as u64)
        .sum();
    let avg = total as f64 / rgb.len() as f64;
    assert!(avg < 5.0, "avg pixel error {avg} should be small at q=95");
}

#[test]
fn declared_dims_zero_skips_check() {
    // Compressed payloads carry their own dimensions; passing 0/0 means "trust the bitstream".
    let rgb = gradient(32, 32);
    let bytes = encode_frame(&rgb, 32, 32, Codec::Png, 0).unwrap();
    let decoded = decode_frame(&bytes, Codec::Png, 0, 0).unwrap();
    assert_eq!((decoded.width, decoded.height), (32, 32));
}

#[test]
fn dimension_mismatch_rejected() {
    let rgb = gradient(32, 32);
    let bytes = encode_frame(&rgb, 32, 32, Codec::Png, 0).unwrap();
    let err = decode_frame(&bytes, Codec::Png, 64, 64).unwrap_err();
    assert!(matches!(err, CodecError::DimensionMismatch { .. }));
}

#[test]
fn invalid_jpeg_quality_rejected() {
    let rgb = gradient(8, 8);
    assert!(matches!(
        encode_frame(&rgb, 8, 8, Codec::Mjpeg, 0),
        Err(CodecError::InvalidQuality(0))
    ));
    assert!(matches!(
        encode_frame(&rgb, 8, 8, Codec::Mjpeg, 101),
        Err(CodecError::InvalidQuality(101))
    ));
}

#[test]
fn wrong_rgb_size_rejected() {
    let rgb = vec![0u8; 100]; // not 32*32*3
    let err = encode_frame(&rgb, 32, 32, Codec::Raw, 0).unwrap_err();
    assert!(matches!(err, CodecError::WrongRgbSize { .. }));
}

#[test]
fn quality_only_meaningful_for_mjpeg() {
    assert!(!Codec::Raw.uses_quality());
    assert!(!Codec::Png.uses_quality());
    assert!(Codec::Mjpeg.uses_quality());
}

#[test]
fn quality_changes_only_jpeg() {
    let rgb = gradient(16, 16);
    for codec in [Codec::Raw, Codec::Png] {
        let low = encode_frame(&rgb, 16, 16, codec, 0).unwrap();
        let high = encode_frame(&rgb, 16, 16, codec, 255).unwrap();
        assert_eq!(low, high);
    }
    let low = encode_frame(&rgb, 16, 16, Codec::Mjpeg, 1).unwrap();
    let high = encode_frame(&rgb, 16, 16, Codec::Mjpeg, 100).unwrap();
    assert_ne!(low, high);
}

#[test]
fn the_codecs_make_different_bytes() {
    let rgb = gradient(16, 16);
    let png = encode_frame(&rgb, 16, 16, Codec::Png, 0).unwrap();
    let jpeg = encode_frame(&rgb, 16, 16, Codec::Mjpeg, 90).unwrap();
    assert_eq!(&png[1..4], b"PNG");
    assert_eq!(&jpeg[..2], &[0xff, 0xd8]);
    // Each decoder refuses the other's bytes.
    assert!(matches!(decode_frame(&jpeg, Codec::Png, 0, 0), Err(CodecError::DecodeFailed(_))));
    assert!(matches!(decode_frame(&png, Codec::Mjpeg, 0, 0), Err(CodecError::DecodeFailed(_))));
}

#[test]
fn empty_pictures_are_refused() {
    for codec in [Codec::Raw, Codec::Png, Codec::Mjpeg] {
        let err = encode_frame(&[], 0, 4, codec, 50).unwrap_err();
        assert!(matches!(err, CodecError::InvalidDimensions { width: 0, height: 4 }));
    }
}

#[test]
fn raw_bytes_need_their_declared_size() {
    assert!(decode_frame(&[1, 2, 3], Codec::Raw, 1, 1).is_ok());
    assert!(decode_frame(&[1, 2, 3, 4], Codec::Raw, 1, 1).is_err());
    assert!(decode_frame(&[1, 2, 3], Codec::Raw, 0, 0).is_err());
}

#[test]
fn what_the_codec_libraries_answer_is_passed_on() {
    assert_eq!(accept_encoded(Ok(vec![1, 2])).unwrap(), vec![1, 2]);
    let failed = accept_encoded(Err("boom".to_string())).unwrap_err();
    assert!(matches!(&failed, CodecError::EncodeFailed(m) if m == "boom"));

    let frame = || DecodedFrame { rgb: vec![9; 6], width: 2, height: 1 };
    assert_eq!(accept_decoded(Ok(frame()), 2, 1).unwrap().rgb, vec![9; 6]);
    assert!(accept_decoded(Ok(frame()), 0, 0).is_ok());
    assert!(matches!(
        accept_decoded(Ok(frame()), 2, 2),
        Err(CodecError::DimensionMismatch {
            decoded_width: 2,
            decoded_height: 1,
            declared_width: 2,
            declared_height: 2,
        })
    ));
    let failed = accept_decoded(Err("bad".to_string()), 2, 1).unwrap_err();
    assert!(matches!(&failed, CodecError::DecodeFailed(m) if m == "bad"));
}
