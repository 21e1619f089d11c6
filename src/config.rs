//! Checks on the integer parts of a render configuration, made once before
//! any rendering starts.
use vstd::prelude::*;

verus! {

/// Why a configuration cannot be rendered.
#[derive(Clone, Copy, Debug, PartialEq, Eq, Structural)]
pub enum ConfigError {
    /// The frame is zero pixels wide.
    ZeroWidth,
    /// The frame is zero pixels high.
    ZeroHeight,
    /// The iteration cap is zero, so counts cannot be normalised.
    ZeroIterations,
    /// No frame to render, so the zoom step cannot be computed.
    NoFrames,
    /// The frame's bytes (three per pixel) do not fit in memory addresses.
    FrameTooLarge,
}

/// The error that a configuration gets, if any; the first failing check wins.
pub open spec fn config_error(
    width: u32,
    height: u32,
    max_iterations: u32,
    number_of_frames: u32,
) -> Option<ConfigError> {
    if width == 0 {
        Some(ConfigError::ZeroWidth)
    } else if height == 0 {
        Some(ConfigError::ZeroHeight)
    } else if max_iterations == 0 {
        Some(ConfigError::ZeroIterations)
    } else if number_of_frames == 0 {
        Some(ConfigError::NoFrames)
    } else if 3 * width * height > usize::MAX {
        Some(ConfigError::FrameTooLarge)
    } else {
        None
    }
}

/// Accepts a configuration exactly when the frame has pixels, the iteration
/// cap and the frame count are positive, and the frame's bytes fit in memory.
pub fn check_config(width: u32, height: u32, max_iterations: u32, number_of_frames: u32) -> (r:
    Result<(), ConfigError>)
    ensures
        r is Ok <==> config_error(width, height, max_iterations, number_of_frames) is None,
        r is Err ==> Some(r->Err_0) == config_error(
            width,
            height,
            max_iterations,
            number_of_frames,
        ),
        r is Ok ==> width >= 1 && height >= 1 && max_iterations >= 1 && number_of_frames >= 1 && 3
            * width * height <= usize::MAX,
{
    if width == 0 {
        Err(ConfigError::ZeroWidth)
    } else if height == 0 {
        Err(ConfigError::ZeroHeight)
    } else if max_iterations == 0 {
        Err(ConfigError::ZeroIterations)
    } else if number_of_frames == 0 {
        Err(ConfigError::NoFrames)
    } else {
        proof {
            assert(3 * width * height <= 3 * 0xffff_ffffu128 * 0xffff_ffffu128) by (nonlinear_arith)
                requires
                    width <= 0xffff_ffffu32,
                    height <= 0xffff_ffffu32,
            ;
        }
        let bytes: u128 = 3 * (width as u128) * (height as u128);
        if bytes > usize::MAX as u128 {
            Err(ConfigError::FrameTooLarge)
        } else {
            Ok(())
        }
    }
}

} // verus!
