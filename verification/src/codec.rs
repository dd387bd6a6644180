//! Frames as independent images: raw, PNG or JPEG.
//!
//! Frames are packed RGB on both ends whatever the codec. PNG and JPEG carry their own
//! dimensions; raw frames need them from elsewhere.

use vstd::prelude::*;

use image::ImageEncoder;

use crate::text::{decimal, push_decimal};

verus! {

/// Codec of a frame-video track.
#[derive(Debug, Clone, Copy, PartialEq, Eq, Hash, Structural)]
pub enum Codec {
    /// Uncompressed.
    Raw,
    /// Lossless.
    Png,
    /// Lossy, each frame on its own.
    Mjpeg,
}

impl Codec {
    /// Whether a quality means anything to the codec.
    pub fn uses_quality(self) -> (uses: bool)
        ensures
            uses == (self == Codec::Mjpeg),
    {
        match self {
            Codec::Mjpeg => true,
            _ => false,
        }
    }
}

/// A decoded frame with the dimensions found in its payload.
#[derive(Debug)]
pub struct DecodedFrame {
    pub rgb: Vec<u8>,
    pub width: u32,
    pub height: u32,
}

#[derive(Debug)]
pub enum CodecError {
    InvalidDimensions { width: u32, height: u32 },
    WrongRgbSize { width: u32, height: u32, expected: usize, got: usize },
    InvalidQuality(u8),
    EncodeFailed(String),
    DecodeFailed(String),
    DimensionMismatch {
        decoded_width: u32,
        decoded_height: u32,
        declared_width: u32,
        declared_height: u32,
    },
}

pub type CodecResult<T> = Result<T, CodecError>;

/// What a codec error says.
pub enum CodecErrorView {
    InvalidDimensions { width: u32, height: u32 },
    WrongRgbSize { width: u32, height: u32, expected: nat, got: nat },
    InvalidQuality(u8),
    EncodeFailed(Seq<char>),
    DecodeFailed(Seq<char>),
    DimensionMismatch {
        decoded_width: u32,
        decoded_height: u32,
        declared_width: u32,
        declared_height: u32,
    },
}

impl View for CodecError {
    type V = CodecErrorView;

    open spec fn view(&self) -> CodecErrorView {
        match *self {
            CodecError::InvalidDimensions { width, height } => CodecErrorView::InvalidDimensions {
                width,
                height,
            },
            CodecError::WrongRgbSize { width, height, expected, got } =>
            CodecErrorView::WrongRgbSize {
                width,
                height,
                expected: expected as nat,
                got: got as nat,
            },
            CodecError::InvalidQuality(quality) => CodecErrorView::InvalidQuality(quality),
            CodecError::EncodeFailed(text) => CodecErrorView::EncodeFailed(text@),
            CodecError::DecodeFailed(text) => CodecErrorView::DecodeFailed(text@),
            CodecError::DimensionMismatch {
                decoded_width,
                decoded_height,
                declared_width,
                declared_height,
            } => CodecErrorView::DimensionMismatch {
                decoded_width,
                decoded_height,
                declared_width,
                declared_height,
            },
        }
    }
}

/// The message of a codec error.
pub open spec fn codec_error_text(e: CodecErrorView) -> Seq<char> {
    match e {
        CodecErrorView::InvalidDimensions { width, height } => "invalid frame dimensions: "@
            + decimal(width as nat) + "x"@ + decimal(height as nat),
        CodecErrorView::WrongRgbSize { width, height, expected, got } =>
        "wrong RGB buffer size for "@ + decimal(width as nat) + "x"@ + decimal(height as nat)
            + ": expected "@ + decimal(expected) + " bytes, got "@ + decimal(got),
        CodecErrorView::InvalidQuality(quality) => "invalid quality "@ + decimal(quality as nat)
            + ": must be in 1..=100"@,
        CodecErrorView::EncodeFailed(text) => "encode failed: "@ + text,
        CodecErrorView::DecodeFailed(text) => "decode failed: "@ + text,
        CodecErrorView::DimensionMismatch {
            decoded_width,
            decoded_height,
            declared_width,
            declared_height,
        } => "decoded dimensions "@ + decimal(decoded_width as nat) + "x"@ + decimal(
            decoded_height as nat,
        ) + " disagree with declared "@ + decimal(declared_width as nat) + "x"@ + decimal(
            declared_height as nat,
        ),
    }
}

impl CodecError {
    /// The message of the error.
    pub fn message(&self) -> (text: String)
        ensures
            text@ == codec_error_text(self@),
    {
        match self {
            CodecError::InvalidDimensions { width, height } => {
                let mut text: String = "invalid frame dimensions: ".to_owned();
                push_size(&mut text, *width, *height);
                text
            },
            CodecError::WrongRgbSize { width, height, expected, got } => {
                let mut text: String = "wrong RGB buffer size for ".to_owned();
                push_size(&mut text, *width, *height);
                text.append(": expected ");
                push_decimal(&mut text, *expected as u64);
                text.append(" bytes, got ");
                push_decimal(&mut text, *got as u64);
                text
            },
            CodecError::InvalidQuality(quality) => {
                let mut text: String = "invalid quality ".to_owned();
                push_decimal(&mut text, *quality as u64);
                text.append(": must be in 1..=100");
                text
            },
            CodecError::EncodeFailed(t) => crate::error::joined("encode failed: ", t.as_str()),
            CodecError::DecodeFailed(t) => crate::error::joined("decode failed: ", t.as_str()),
            CodecError::DimensionMismatch {
                decoded_width,
                decoded_height,
                declared_width,
                declared_height,
            } => {
                let mut text: String = "decoded dimensions ".to_owned();
                push_size(&mut text, *decoded_width, *decoded_height);
                text.append(" disagree with declared ");
                push_size(&mut text, *declared_width, *declared_height);
                text
            },
        }
    }
}

fn push_size(text: &mut String, width: u32, height: u32)
    ensures
        final(text)@ == old(text)@ + decimal(width as nat) + "x"@ + decimal(height as nat),
{
    push_decimal(text, width as u64);
    text.append("x");
    push_decimal(text, height as u64);
}

/// Bytes of a packed RGB frame.
pub open spec fn rgb_len(width: u32, height: u32) -> nat {
    ((width * height) * 3) as nat
}

/// What is wrong with a packed RGB frame of `len` bytes, if anything.
pub open spec fn rgb_fault(len: nat, width: u32, height: u32) -> Option<CodecErrorView> {
    if width == 0 || height == 0 || rgb_len(width, height) > usize::MAX {
        Some(CodecErrorView::InvalidDimensions { width, height })
    } else if len != rgb_len(width, height) {
        Some(
            CodecErrorView::WrongRgbSize { width, height, expected: rgb_len(width, height), got: len },
        )
    } else {
        None
    }
}

fn check_rgb(rgb: &[u8], width: u32, height: u32) -> (checked: CodecResult<usize>)
    ensures
        match checked {
            Ok(len) => rgb_fault(rgb@.len(), width, height) is None && len == rgb@.len(),
            Err(e) => rgb_fault(rgb@.len(), width, height) == Some(e@),
        },
{
    if width == 0 || height == 0 {
        return Err(CodecError::InvalidDimensions { width, height });
    }
    assert(width * height >= 0) by (nonlinear_arith)
        requires
            width >= 0,
            height >= 0,
    ;
    let expected: Option<usize> = match (width as usize).checked_mul(height as usize) {
        Some(pixels) => pixels.checked_mul(3),
        None => None,
    };
    match expected {
        Some(expected) => {
            if rgb.len() != expected {
                return Err(
                    CodecError::WrongRgbSize { width, height, expected, got: rgb.len() },
                );
            }
            Ok(expected)
        },
        None => Err(CodecError::InvalidDimensions { width, height }),
    }
}

/// What the PNG encoder makes of a frame.
pub uninterp spec fn png_encoded(rgb: Seq<u8>, width: u32, height: u32) -> Result<
    Seq<u8>,
    Seq<char>,
>;

/// What the JPEG encoder makes of a frame.
pub uninterp spec fn jpeg_encoded(rgb: Seq<u8>, width: u32, height: u32, quality: u8) -> Result<
    Seq<u8>,
    Seq<char>,
>;

/// The frame and its dimensions that the PNG decoder finds in a payload.
pub uninterp spec fn png_decoded(bytes: Seq<u8>) -> Result<(Seq<u8>, u32, u32), Seq<char>>;

/// The frame and its dimensions that the JPEG decoder finds in a payload.
pub uninterp spec fn jpeg_decoded(bytes: Seq<u8>) -> Result<(Seq<u8>, u32, u32), Seq<char>>;

/// An encoded payload or the reason why there is none.
pub open spec fn payload_view(r: Result<Vec<u8>, String>) -> Result<Seq<u8>, Seq<char>> {
    match r {
        Ok(bytes) => Ok(bytes@),
        Err(text) => Err(text@),
    }
}

/// A decoded frame or the reason why there is none.
pub open spec fn frame_view(r: Result<DecodedFrame, String>) -> Result<
    (Seq<u8>, u32, u32),
    Seq<char>,
> {
    match r {
        Ok(frame) => Ok((frame.rgb@, frame.width, frame.height)),
        Err(text) => Err(text@),
    }
}

/// The largest frame that the decoders accept, in bytes: their default allocation limit.
pub const DECODE_LIMIT: u64 = 0x2000_0000;

/// `bytes` is what the PNG encoder made of this frame, which the decoder has room for.
pub open spec fn is_png_of(bytes: Seq<u8>, rgb: Seq<u8>, width: u32, height: u32) -> bool {
    &&& rgb_fault(rgb.len(), width, height) is None
    &&& rgb.len() <= DECODE_LIMIT
    &&& png_encoded(rgb, width, height) == Ok::<Seq<u8>, Seq<char>>(bytes)
}

/// Whatever frame the PNG encoder made `bytes` of is the decoded one.
pub open spec fn undoes_png(
    bytes: Seq<u8>,
    decoded: Result<(Seq<u8>, u32, u32), Seq<char>>,
) -> bool {
    forall|rgb: Seq<u8>, width: u32, height: u32| #[trigger]
        is_png_of(bytes, rgb, width, height) ==> decoded == Ok::<
            (Seq<u8>, u32, u32),
            Seq<char>,
        >((rgb, width, height))
}

/// `image::codecs::png::PngEncoder::write_image` with default compression and adaptive
/// filtering, into memory. Its output is a function of the frame and its dimensions; it
/// panics unless the buffer has three bytes for every pixel. An error is handed on as its
/// message.
#[verifier::external_body]
fn encode_png(rgb: &[u8], width: u32, height: u32) -> (r: Result<Vec<u8>, String>)
    requires
        rgb_fault(rgb@.len(), width, height) is None,
    ensures
        payload_view(r) == png_encoded(rgb@, width, height),
{
    let mut out = Vec::new();
    let encoder = image::codecs::png::PngEncoder::new_with_quality(
        &mut out,
        image::codecs::png::CompressionType::Default,
        image::codecs::png::FilterType::Adaptive,
    );
    encoder
        .write_image(rgb, width, height, image::ExtendedColorType::Rgb8)
        .map_err(|e| e.to_string())?;
    Ok(out)
}

/// `image::codecs::jpeg::JpegEncoder::encode` at a given quality, into memory. Its output is
/// a function of the frame, its dimensions and the quality; it panics unless the buffer has
/// three bytes for every pixel. An error is handed on as its message.
#[verifier::external_body]
fn encode_jpeg(rgb: &[u8], width: u32, height: u32, quality: u8) -> (r: Result<Vec<u8>, String>)
    requires
        rgb_fault(rgb@.len(), width, height) is None,
        1 <= quality <= 100,
    ensures
        payload_view(r) == jpeg_encoded(rgb@, width, height, quality),
{
    let mut out = Vec::new();
    let mut encoder = image::codecs::jpeg::JpegEncoder::new_with_quality(&mut out, quality);
    encoder
        .encode(rgb, width, height, image::ExtendedColorType::Rgb8)
        .map_err(|e| e.to_string())?;
    Ok(out)
}

/// `image::ImageReader::decode` on a PNG payload, then `into_rgb8`. The frame is a function
/// of the payload, and PNG is lossless: what the encoder made of a frame is decoded to that
/// frame, as long as the frame stays within the default allocation limit. An error is handed
/// on as its message.
#[verifier::external_body]
fn decode_png(bytes: &[u8]) -> (r: Result<DecodedFrame, String>)
    ensures
        frame_view(r) == png_decoded(bytes@),
        undoes_png(bytes@, frame_view(r)),
{
    let cursor = std::io::Cursor::new(bytes);
    let reader = image::ImageReader::with_format(cursor, image::ImageFormat::Png);
    let decoded = reader.decode().map_err(|e| e.to_string())?.into_rgb8();
    let (width, height) = decoded.dimensions();
    Ok(DecodedFrame { rgb: decoded.into_raw(), width, height })
}

/// `image::ImageReader::decode` on a JPEG payload, then `into_rgb8`. The frame is a function
/// of the payload. An error is handed on as its message. The decoder does not promise that
/// every malformed payload ends in an error rather than in a panic, so nothing is claimed of
/// calls that do not return.
#[verifier::external_body]
fn decode_jpeg(bytes: &[u8]) -> (r: Result<DecodedFrame, String>)
    ensures
        frame_view(r) == jpeg_decoded(bytes@),
{
    let cursor = std::io::Cursor::new(bytes);
    let reader = image::ImageReader::with_format(cursor, image::ImageFormat::Jpeg);
    let decoded = reader.decode().map_err(|e| e.to_string())?.into_rgb8();
    let (width, height) = decoded.dimensions();
    Ok(DecodedFrame { rgb: decoded.into_raw(), width, height })
}

/// What becomes of an encoder's result.
pub open spec fn encoder_outcome(encoded: Result<Seq<u8>, Seq<char>>) -> Result<
    Seq<u8>,
    CodecErrorView,
> {
    match encoded {
        Ok(bytes) => Ok(bytes),
        Err(text) => Err(CodecErrorView::EncodeFailed(text)),
    }
}

/// What encoding a frame comes to.
pub open spec fn encode_outcome(
    rgb: Seq<u8>,
    width: u32,
    height: u32,
    codec: Codec,
    quality: u8,
) -> Result<Seq<u8>, CodecErrorView> {
    match rgb_fault(rgb.len(), width, height) {
        Some(e) => Err(e),
        None => match codec {
            Codec::Raw => Ok(rgb),
            Codec::Png => encoder_outcome(png_encoded(rgb, width, height)),
            Codec::Mjpeg => if 1 <= quality <= 100 {
                encoder_outcome(jpeg_encoded(rgb, width, height, quality))
            } else {
                Err(CodecErrorView::InvalidQuality(quality))
            },
        },
    }
}

/// What becomes of a decoder's result: declared dimensions, unless both are zero, have to be
/// the decoded ones.
pub open spec fn decoder_outcome(
    decoded: Result<(Seq<u8>, u32, u32), Seq<char>>,
    declared_width: u32,
    declared_height: u32,
) -> Result<(Seq<u8>, u32, u32), CodecErrorView> {
    match decoded {
        Err(text) => Err(CodecErrorView::DecodeFailed(text)),
        Ok((rgb, width, height)) => if (declared_width != 0 || declared_height != 0) && (width
            != declared_width || height != declared_height) {
            Err(
                CodecErrorView::DimensionMismatch {
                    decoded_width: width,
                    decoded_height: height,
                    declared_width,
                    declared_height,
                },
            )
        } else {
            Ok((rgb, width, height))
        },
    }
}

/// What decoding a payload comes to.
pub open spec fn decode_outcome(
    bytes: Seq<u8>,
    codec: Codec,
    declared_width: u32,
    declared_height: u32,
) -> Result<(Seq<u8>, u32, u32), CodecErrorView> {
    match codec {
        Codec::Raw => match rgb_fault(bytes.len(), declared_width, declared_height) {
            Some(e) => Err(e),
            None => Ok((bytes, declared_width, declared_height)),
        },
        Codec::Png => decoder_outcome(png_decoded(bytes), declared_width, declared_height),
        Codec::Mjpeg => decoder_outcome(jpeg_decoded(bytes), declared_width, declared_height),
    }
}

/// An encoded payload or what went wrong.
pub open spec fn encode_result(r: CodecResult<Vec<u8>>) -> Result<Seq<u8>, CodecErrorView> {
    match r {
        Ok(bytes) => Ok(bytes@),
        Err(e) => Err(e@),
    }
}

/// A decoded frame or what went wrong.
pub open spec fn decode_result(r: CodecResult<DecodedFrame>) -> Result<
    (Seq<u8>, u32, u32),
    CodecErrorView,
> {
    match r {
        Ok(frame) => Ok((frame.rgb@, frame.width, frame.height)),
        Err(e) => Err(e@),
    }
}

fn copy_bytes(bytes: &[u8]) -> (copy: Vec<u8>)
    ensures
        copy@ == bytes@,
{
    let mut copy: Vec<u8> = Vec::new();
    copy.extend_from_slice(bytes);
    assert(copy@ =~= bytes@);
    copy
}

/// Takes over an encoder's result.
pub fn accept_encoded(encoded: Result<Vec<u8>, String>) -> (r: CodecResult<Vec<u8>>)
    ensures
        encode_result(r) == encoder_outcome(payload_view(encoded)),
{
    match encoded {
        Ok(bytes) => Ok(bytes),
        Err(text) => Err(CodecError::EncodeFailed(text)),
    }
}

/// Takes over a decoder's result, held against the declared dimensions.
pub fn accept_decoded(
    decoded: Result<DecodedFrame, String>,
    declared_width: u32,
    declared_height: u32,
) -> (r: CodecResult<DecodedFrame>)
    ensures
        decode_result(r) == decoder_outcome(frame_view(decoded), declared_width, declared_height),
{
    match decoded {
        Err(text) => Err(CodecError::DecodeFailed(text)),
        Ok(frame) => {
            if (declared_width != 0 || declared_height != 0) && (frame.width != declared_width
                || frame.height != declared_height) {
                return Err(
                    CodecError::DimensionMismatch {
                        decoded_width: frame.width,
                        decoded_height: frame.height,
                        declared_width,
                        declared_height,
                    },
                );
            }
            Ok(frame)
        },
    }
}

/// Encodes a packed RGB frame. The quality, from one to a hundred, matters to JPEG alone.
pub fn encode_frame(rgb: &[u8], width: u32, height: u32, codec: Codec, quality: u8) -> (r:
    CodecResult<Vec<u8>>)
    ensures
        encode_result(r) == encode_outcome(rgb@, width, height, codec, quality),
{
    match check_rgb(rgb, width, height) {
        Ok(_) => {},
        Err(e) => {
            return Err(e);
        },
    }
    match codec {
        Codec::Raw => Ok(copy_bytes(rgb)),
        Codec::Png => accept_encoded(encode_png(rgb, width, height)),
        Codec::Mjpeg => {
            if quality < 1 || quality > 100 {
                return Err(CodecError::InvalidQuality(quality));
            }
            accept_encoded(encode_jpeg(rgb, width, height, quality))
        },
    }
}

/// Decodes a payload to packed RGB. Raw payloads take their dimensions from the declared
/// ones. PNG gives back the very frame that was encoded.
pub fn decode_frame(
    bytes: &[u8],
    codec: Codec,
    declared_width: u32,
    declared_height: u32,
) -> (r: CodecResult<DecodedFrame>)
    ensures
        decode_result(r) == decode_outcome(bytes@, codec, declared_width, declared_height),
        codec == Codec::Png ==> forall|rgb: Seq<u8>, width: u32, height: u32| #[trigger]
            is_png_of(bytes@, rgb, width, height) ==> decode_result(r) == decoder_outcome(
                Ok((rgb, width, height)),
                declared_width,
                declared_height,
            ),
{
    match codec {
        Codec::Raw => {
            match check_rgb(bytes, declared_width, declared_height) {
                Ok(_) => {},
                Err(e) => {
                    return Err(e);
                },
            }
            Ok(
                DecodedFrame {
                    rgb: copy_bytes(bytes),
                    width: declared_width,
                    height: declared_height,
                },
            )
        },
        Codec::Png => accept_decoded(decode_png(bytes), declared_width, declared_height),
        Codec::Mjpeg => accept_decoded(decode_jpeg(bytes), declared_width, declared_height),
    }
}

/// A raw frame is its own payload, and decoding the payload with the dimensions of the frame
/// gives the frame back.
pub proof fn law_raw_survives(rgb: Seq<u8>, width: u32, height: u32, quality: u8)
    requires
        rgb_fault(rgb.len(), width, height) is None,
    ensures
        encode_outcome(rgb, width, height, Codec::Raw, quality) == Ok::<
            Seq<u8>,
            CodecErrorView,
        >(rgb),
        decode_outcome(rgb, Codec::Raw, width, height) == Ok::<
            (Seq<u8>, u32, u32),
            CodecErrorView,
        >((rgb, width, height)),
{
}

/// Raw and PNG ignore the quality.
pub proof fn law_quality_is_ignored(
    rgb: Seq<u8>,
    width: u32,
    height: u32,
    codec: Codec,
    one: u8,
    other: u8,
)
    requires
        codec != Codec::Mjpeg,
    ensures
        encode_outcome(rgb, width, height, codec, one) == encode_outcome(
            rgb,
            width,
            height,
            codec,
            other,
        ),
{
}

/// A packed frame is accepted exactly where it has pixels, three bytes for each of them and a size
/// that can be held; otherwise its dimensions are told, or how many bytes there should have been.
pub proof fn law_frame_size_is_checked(len: nat, width: u32, height: u32)
    ensures
        ({
            let expected = 3 * (width * height);
            let fits = width > 0 && height > 0 && expected <= usize::MAX;
            &&& rgb_fault(len, width, height) is None <==> fits && len == expected
            &&& !fits ==> rgb_fault(len, width, height) == Some(
                CodecErrorView::InvalidDimensions { width, height },
            )
            &&& fits && len != expected ==> rgb_fault(len, width, height) == Some(
                CodecErrorView::WrongRgbSize {
                    width,
                    height,
                    expected: expected as nat,
                    got: len,
                },
            )
        }),
{
    assert(width * height >= 0) by (nonlinear_arith)
        requires
            width >= 0,
            height >= 0,
    ;
}

/// Encoding fails for every codec on a frame that is not accepted, and for JPEG on a quality out of
/// range; a raw frame is its own payload, and what the other encoders give is handed on.
pub proof fn law_encoding_by_codec(
    rgb: Seq<u8>,
    width: u32,
    height: u32,
    codec: Codec,
    quality: u8,
)
    ensures
        ({
            let outcome = encode_outcome(rgb, width, height, codec, quality);
            &&& rgb_fault(rgb.len(), width, height) matches Some(e) ==> outcome == Err::<
                Seq<u8>,
                CodecErrorView,
            >(e)
            &&& rgb_fault(rgb.len(), width, height) is None ==> match codec {
                Codec::Raw => outcome == Ok::<Seq<u8>, CodecErrorView>(rgb),
                Codec::Png => match png_encoded(rgb, width, height) {
                    Ok(bytes) => outcome == Ok::<Seq<u8>, CodecErrorView>(bytes),
                    Err(text) => outcome == Err::<Seq<u8>, CodecErrorView>(
                        CodecErrorView::EncodeFailed(text),
                    ),
                },
                Codec::Mjpeg => if quality == 0 || quality > 100 {
                    outcome == Err::<Seq<u8>, CodecErrorView>(
                        CodecErrorView::InvalidQuality(quality),
                    )
                } else {
                    match jpeg_encoded(rgb, width, height, quality) {
                        Ok(bytes) => outcome == Ok::<Seq<u8>, CodecErrorView>(bytes),
                        Err(text) => outcome == Err::<Seq<u8>, CodecErrorView>(
                            CodecErrorView::EncodeFailed(text),
                        ),
                    }
                },
            }
        }),
{
}

/// A decoded picture is handed on as it is where nothing was declared of its size or where the
/// declared size is its own; any other declared size is told beside its own. A failure is told.
pub proof fn law_declared_size_is_held(
    decoded: Result<(Seq<u8>, u32, u32), Seq<char>>,
    declared_width: u32,
    declared_height: u32,
)
    ensures
        ({
            let outcome = decoder_outcome(decoded, declared_width, declared_height);
            match decoded {
                Err(text) => outcome == Err::<(Seq<u8>, u32, u32), CodecErrorView>(
                    CodecErrorView::DecodeFailed(text),
                ),
                Ok((rgb, width, height)) => {
                    let same = declared_width == width && declared_height == height;
                    let none = declared_width == 0 && declared_height == 0;
                    &&& same || none ==> outcome == Ok::<(Seq<u8>, u32, u32), CodecErrorView>(
                        (rgb, width, height),
                    )
                    &&& !same && !none ==> outcome == Err::<(Seq<u8>, u32, u32), CodecErrorView>(
                        CodecErrorView::DimensionMismatch {
                            decoded_width: width,
                            decoded_height: height,
                            declared_width,
                            declared_height,
                        },
                    )
                },
            }
        }),
{
}

/// A payload goes to the decoder of its own codec, and a raw one is a frame of the declared size or
/// none at all.
pub proof fn law_decoding_by_codec(bytes: Seq<u8>, width: u32, height: u32)
    ensures
        decode_outcome(bytes, Codec::Png, width, height) == decoder_outcome(
            png_decoded(bytes),
            width,
            height,
        ),
        decode_outcome(bytes, Codec::Mjpeg, width, height) == decoder_outcome(
            jpeg_decoded(bytes),
            width,
            height,
        ),
        rgb_fault(bytes.len(), width, height) is None ==> decode_outcome(
            bytes,
            Codec::Raw,
            width,
            height,
        ) == Ok::<(Seq<u8>, u32, u32), CodecErrorView>((bytes, width, height)),
        rgb_fault(bytes.len(), width, height) matches Some(e) ==> decode_outcome(
            bytes,
            Codec::Raw,
            width,
            height,
        ) == Err::<(Seq<u8>, u32, u32), CodecErrorView>(e),
{
}

/// A result says what it holds: the bytes of a payload or of a frame with its dimensions, or the
/// error.
pub proof fn law_results_say_what_they_hold(
    payload: CodecResult<Vec<u8>>,
    frame: CodecResult<DecodedFrame>,
    encoded: Result<Vec<u8>, String>,
    decoded: Result<DecodedFrame, String>,
)
    ensures
        payload matches Ok(bytes) ==> encode_result(payload) == Ok::<Seq<u8>, CodecErrorView>(
            bytes@,
        ),
        payload matches Err(e) ==> encode_result(payload) == Err::<Seq<u8>, CodecErrorView>(e@),
        frame matches Ok(f) ==> decode_result(frame) == Ok::<(Seq<u8>, u32, u32), CodecErrorView>(
            (f.rgb@, f.width, f.height),
        ),
        frame matches Err(e) ==> decode_result(frame) == Err::<
            (Seq<u8>, u32, u32),
            CodecErrorView,
        >(e@),
        encoded matches Ok(bytes) ==> payload_view(encoded) == Ok::<Seq<u8>, Seq<char>>(bytes@),
        encoded matches Err(text) ==> payload_view(encoded) == Err::<Seq<u8>, Seq<char>>(text@),
        decoded matches Ok(f) ==> frame_view(decoded) == Ok::<(Seq<u8>, u32, u32), Seq<char>>(
            (f.rgb@, f.width, f.height),
        ),
        decoded matches Err(text) ==> frame_view(decoded) == Err::<
            (Seq<u8>, u32, u32),
            Seq<char>,
        >(text@),
{
}

/// The message about a wrong size ends with the size that came, the one about other dimensions with
/// the declared height, and the ones of a failed codec with its reason.
pub proof fn law_codec_messages_tell(
    width: u32,
    height: u32,
    expected: nat,
    got: nat,
    decoded_width: u32,
    decoded_height: u32,
    text: Seq<char>,
)
    ensures
        decimal(got).is_suffix_of(
            codec_error_text(CodecErrorView::WrongRgbSize { width, height, expected, got }),
        ),
        decimal(height as nat).is_suffix_of(
            codec_error_text(CodecErrorView::InvalidDimensions { width, height }),
        ),
        (decimal(width as nat) + "x"@ + decimal(height as nat)).is_suffix_of(
            codec_error_text(
                CodecErrorView::DimensionMismatch {
                    decoded_width,
                    decoded_height,
                    declared_width: width,
                    declared_height: height,
                },
            ),
        ),
        text.is_suffix_of(codec_error_text(CodecErrorView::EncodeFailed(text))),
        text.is_suffix_of(codec_error_text(CodecErrorView::DecodeFailed(text))),
{
    let a = codec_error_text(CodecErrorView::WrongRgbSize { width, height, expected, got });
    assert(decimal(got) =~= a.subrange(a.len() - decimal(got).len(), a.len() as int));
    let b = codec_error_text(CodecErrorView::InvalidDimensions { width, height });
    let tall = decimal(height as nat);
    assert(tall =~= b.subrange(b.len() - tall.len(), b.len() as int));
    let c = codec_error_text(
        CodecErrorView::DimensionMismatch {
            decoded_width,
            decoded_height,
            declared_width: width,
            declared_height: height,
        },
    );
    let size = decimal(width as nat) + "x"@ + decimal(height as nat);
    assert(size =~= c.subrange(c.len() - size.len(), c.len() as int));
    let d = codec_error_text(CodecErrorView::EncodeFailed(text));
    let e = codec_error_text(CodecErrorView::DecodeFailed(text));
    assert(text =~= d.subrange(d.len() - text.len(), d.len() as int));
    assert(text =~= e.subrange(e.len() - text.len(), e.len() as int));
}

} // verus!
