//! A picture of what the strip shows, to look at on a screen: on top each
//! pixel in the colour of its LED, below it the frame as it came in.

use crate::aggregate::{aggregate_frame, frame_colors, FrameError};
use crate::color::{from_u64_rgb, packed_rgb};
use crate::led::APA102DataFrame;
use crate::segment_map::segments_in_range;
use vstd::prelude::*;

verus! {

/// A colour as `0xRRGGBB`.
pub open spec fn packed_color(frame: APA102DataFrame) -> u32 {
    packed_rgb(frame.0 as u32, frame.1 as u32, frame.2 as u32)
}

/// Pixel `index` of a frame as `0xRRGGBB`.
pub open spec fn source_color(pixels: Seq<u8>, index: int) -> u32 {
    packed_rgb(pixels[3 * index] as u32, pixels[3 * index + 1] as u32, pixels[3 * index + 2] as u32)
}

/// What pixel `index` shows in the top half: the colour of its LED, black
/// where it has none.
pub open spec fn segment_shade(
    map: Seq<Option<usize>>,
    colors: Seq<APA102DataFrame>,
    index: int,
) -> u32 {
    match map[index] {
        Some(segment) => packed_color(colors[segment as int]),
        None => 0,
    }
}

/// Whether `image` is the debug image of a frame: twice as long as the frame,
/// the LED colours first, then the frame itself.
pub open spec fn is_debug_image(
    image: Seq<u32>,
    pixels: Seq<u8>,
    map: Seq<Option<usize>>,
    colors: Seq<APA102DataFrame>,
) -> bool {
    &&& image.len() == 2 * map.len()
    &&& forall|i: int| 0 <= i < map.len() ==> image[i] == #[trigger] segment_shade(map, colors, i)
    &&& forall|i: int|
        0 <= i < map.len() ==> image[map.len() + i] == #[trigger] source_color(pixels, i)
}

/// Draws the debug image of a frame for a strip of `num_leds` LEDs, one
/// `0xRRGGBB` value per pixel, for a window as wide as the frame and twice
/// as high.
pub fn debug_image(pixels: &[u8], segment_map: &Vec<Option<usize>>, num_leds: usize) -> (image:
    Result<Vec<u32>, FrameError>)
    ensures
        pixels.len() != 3 * segment_map.len() ==> image == Err::<Vec<u32>, FrameError>(
            FrameError::LengthMismatch,
        ),
        pixels.len() == 3 * segment_map.len() && !segments_in_range(segment_map@, num_leds)
            ==> image == Err::<Vec<u32>, FrameError>(FrameError::SegmentOutOfRange),
        pixels.len() == 3 * segment_map.len() && segments_in_range(segment_map@, num_leds)
            ==> image is Ok && is_debug_image(
            image->Ok_0@,
            pixels@,
            segment_map@,
            frame_colors(pixels@, segment_map@, num_leds),
        ),
{
    let colors = match aggregate_frame(pixels, segment_map, num_leds) {
        Ok(colors) => colors,
        Err(error) => {
            return Err(error);
        },
    };
    let pixel_total = segment_map.len();
    let mut image: Vec<u32> = Vec::new();
    for index in 0..pixel_total
        invariant
            pixel_total == segment_map.len(),
            segments_in_range(segment_map@, num_leds),
            colors@.len() == num_leds,
            image.len() == index,
            forall|i: int|
                0 <= i < index ==> image@[i] == #[trigger] segment_shade(
                    segment_map@,
                    colors@,
                    i,
                ),
    {
        let shade = match segment_map[index] {
            Some(segment) => {
                let APA102DataFrame(r, g, b) = colors[segment];
                from_u64_rgb(r as u64, g as u64, b as u64)
            },
            None => 0,
        };
        image.push(shade);
    }
    for index in 0..pixel_total
        invariant
            pixel_total == segment_map.len(),
            pixels.len() == 3 * pixel_total,
            image.len() == pixel_total + index,
            forall|i: int|
                0 <= i < pixel_total ==> image@[i] == #[trigger] segment_shade(
                    segment_map@,
                    colors@,
                    i,
                ),
            forall|i: int|
                0 <= i < index ==> image@[pixel_total + i] == #[trigger] source_color(pixels@, i),
    {
        let r = pixels[3 * index] as u64;
        let g = pixels[3 * index + 1] as u64;
        let b = pixels[3 * index + 2] as u64;
        image.push(from_u64_rgb(r, g, b));
    }
    Ok(image)
}

} // verus!
