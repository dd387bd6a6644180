//! Video frames on their way out and in.

use vstd::prelude::*;

use crate::error::{ErrorView, PortalError, PortalResult};
use crate::types::VideoFrameData;

verus! {

/// Size that a video source announces before its first frame.
pub const DEFAULT_WIDTH: u32 = 640;

/// Size that a video source announces before its first frame.
pub const DEFAULT_HEIGHT: u32 = 480;

/// What is wrong with a packed RGB frame that is to be sent, if anything. Chroma is sampled at
/// half the resolution, so both dimensions have to be even.
pub open spec fn frame_fault(len: nat, width: u32, height: u32) -> Option<ErrorView> {
    let expected = ((width * height) * 3) as nat;
    if width % 2 != 0 || height % 2 != 0 {
        Some(
            ErrorView::InvalidFrameDimensions { width: width as nat, height: height as nat },
        )
    } else if len != expected {
        Some(ErrorView::WrongFrameSize { expected, got: len })
    } else {
        None
    }
}

/// Checks a packed RGB frame that is to be sent, and stamps it with `timestamp_us` or, without
/// one, with the current time.
pub fn check_frame(
    rgb_data: &[u8],
    width: u32,
    height: u32,
    timestamp_us: Option<u64>,
    now_us: u64,
) -> (stamp: PortalResult<u64>)
    ensures
        match stamp {
            Ok(ts) => {
                &&& frame_fault(rgb_data@.len(), width, height) is None
                &&& ts == match timestamp_us {
                    Some(ts) => ts,
                    None => now_us,
                }
            },
            Err(e) => frame_fault(rgb_data@.len(), width, height) == Some(e@),
        },
{
    if width % 2 != 0 || height % 2 != 0 {
        return Err(PortalError::InvalidFrameDimensions { width, height });
    }
    assert(0 <= width * height <= 0xffff_ffff * 0xffff_ffff) by (nonlinear_arith)
        requires
            0 <= width <= 0xffff_ffff,
            0 <= height <= 0xffff_ffff,
    ;
    let expected: u128 = width as u128 * height as u128 * 3;
    if rgb_data.len() as u128 != expected {
        return Err(PortalError::WrongFrameSize { expected, got: rgb_data.len() });
    }
    Ok(
        match timestamp_us {
            Some(ts) => ts,
            None => now_us,
        },
    )
}

/// The planes of a received picture one behind the other.
pub fn join_planes(
    y: &[u8],
    u: &[u8],
    v: &[u8],
    width: u32,
    height: u32,
    timestamp_us: u64,
) -> (frame: VideoFrameData)
    ensures
        frame.data@ == y@ + u@ + v@,
        frame.width == width,
        frame.height == height,
        frame.timestamp_us == timestamp_us,
{
    let mut data: Vec<u8> = Vec::new();
    data.extend_from_slice(y);
    data.extend_from_slice(u);
    data.extend_from_slice(v);
    assert(data@ =~= y@ + u@ + v@);
    VideoFrameData { width, height, data, timestamp_us }
}

/// A frame can be sent exactly where both of its dimensions are even and it has three bytes for
/// every pixel; otherwise the dimensions are told, or how many bytes there should have been.
pub proof fn law_frame_is_checked(len: nat, width: u32, height: u32)
    ensures
        frame_fault(len, width, height) is None <==> width % 2 == 0 && height % 2 == 0 && len == 3
            * (width * height),
        width % 2 == 1 || height % 2 == 1 ==> frame_fault(len, width, height) == Some(
            ErrorView::InvalidFrameDimensions { width: width as nat, height: height as nat },
        ),
        width % 2 == 0 && height % 2 == 0 && len != 3 * (width * height) ==> frame_fault(
            len,
            width,
            height,
        ) == Some(
            ErrorView::WrongFrameSize { expected: (3 * (width * height)) as nat, got: len },
        ),
{
    assert(width * height >= 0) by (nonlinear_arith)
        requires
            width >= 0,
            height >= 0,
    ;
}

} // verus!
