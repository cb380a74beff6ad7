use vstd::prelude::*;

use crate::render::RenderOptions;

verus! {

/// The color map for the pixel contribution.
#[derive(Clone, Copy, Debug, PartialEq, Eq, Structural)]
pub enum PixelContribColorMap {
    /// The color map is a grayscale image.
    Grayscale,
    /// The color map is a RGB image.
    Rgb,
}

/// The log levels that can be chosen.
#[derive(Clone, Copy, Debug, PartialEq, Eq, Structural)]
pub enum LogLevel {
    Trace,
    Debug,
    Info,
    Warn,
    Error,
}

/// Returns the rendering options for the requested number of threads and frame buffer size. A
/// requested number of zero threads stands for as many threads as the machine offers.
///
/// # Arguments
/// * `num_threads` - The requested number of threads, or zero.
/// * `size_buffer` - The size of the quadratic frame buffer.
/// * `available_parallelism` - The number of threads that the machine offers.
pub fn get_render_options(num_threads: usize, size_buffer: usize, available_parallelism: usize) -> (r:
    RenderOptions)
    ensures
        r.num_threads == if num_threads == 0 {
            available_parallelism
        } else {
            num_threads
        },
        r.frame_size == size_buffer,
{
    let num_threads: usize = if num_threads == 0 {
        available_parallelism
    } else {
        num_threads
    };
    RenderOptions { num_threads, frame_size: size_buffer }
}

} // verus!
