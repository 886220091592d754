//! One colour per LED from the pixels of a frame.
//!
//! Each LED gets, channel by channel, the quadratic mean of the pixels that
//! the segment map assigns to it: the root of the mean of the squares,
//! rounded to the nearest whole number. An LED without pixels is black.

use crate::color::{from_u64_rgb, lemma_packed_color_unpacks};
use crate::led::{APA102DataFrame, LEDStrip};
use crate::segment_map::segments_in_range;
use vstd::prelude::*;

verus! {

/// Why a frame was refused.
#[derive(Clone, Copy, Debug, PartialEq, Eq, Structural)]
pub enum FrameError {
    /// The pixel buffer does not hold three bytes for each entry of the
    /// segment map.
    LengthMismatch,
    /// The segment map names an LED that the strip does not have.
    SegmentOutOfRange,
}

/// How many of the first `upto` pixels belong to `segment`.
pub open spec fn pixel_count(map: Seq<Option<usize>>, segment: usize, upto: int) -> nat
    decreases upto,
{
    if upto <= 0 {
        0
    } else {
        pixel_count(map, segment, upto - 1) + if map[upto - 1] == Some(segment) {
            1nat
        } else {
            0nat
        }
    }
}

/// The sum, over those of the first `upto` pixels that belong to `segment`,
/// of the square of channel `channel` (0 red, 1 green, 2 blue).
pub open spec fn square_sum(
    pixels: Seq<u8>,
    map: Seq<Option<usize>>,
    segment: usize,
    channel: int,
    upto: int,
) -> nat
    decreases upto,
{
    if upto <= 0 {
        0
    } else {
        square_sum(pixels, map, segment, channel, upto - 1) + if map[upto - 1] == Some(segment) {
            (pixels[3 * (upto - 1) + channel] as nat) * (pixels[3 * (upto - 1) + channel] as nat)
        } else {
            0nat
        }
    }
}

/// Whether `mean` is the root of `sum / count`, rounded to the nearest whole
/// number, a half rounding up: `mean - 1/2 <= sqrt(sum / count) < mean + 1/2`,
/// with both sides doubled and squared.
pub open spec fn is_quadratic_mean(mean: int, sum: nat, count: nat) -> bool {
    &&& 0 <= mean
    &&& mean == 0 || (2 * mean - 1) * (2 * mean - 1) * count <= 4 * sum
    &&& 4 * sum < (2 * mean + 1) * (2 * mean + 1) * count
}

/// The root of `sum / count`, rounded to the nearest whole number.
pub open spec fn quadratic_mean(sum: nat, count: nat) -> int {
    choose|mean: int| is_quadratic_mean(mean, sum, count)
}

/// The colour of LED `segment` for a frame: black without pixels, else the
/// quadratic mean of its pixels in each channel.
pub open spec fn segment_color(pixels: Seq<u8>, map: Seq<Option<usize>>, segment: usize)
    -> APA102DataFrame {
    let count = pixel_count(map, segment, map.len() as int);
    if count == 0 {
        APA102DataFrame(0, 0, 0)
    } else {
        APA102DataFrame(
            quadratic_mean(square_sum(pixels, map, segment, 0, map.len() as int), count) as u8,
            quadratic_mean(square_sum(pixels, map, segment, 1, map.len() as int), count) as u8,
            quadratic_mean(square_sum(pixels, map, segment, 2, map.len() as int), count) as u8,
        )
    }
}

/// The colours of all `num_leds` LEDs for a frame.
pub open spec fn frame_colors(pixels: Seq<u8>, map: Seq<Option<usize>>, num_leds: usize) -> Seq<
    APA102DataFrame,
> {
    Seq::new(num_leds as nat, |segment: int| segment_color(pixels, map, segment as usize))
}

/// There is at most one quadratic mean, so `quadratic_mean` is the one
/// number that `is_quadratic_mean` holds of.
pub proof fn lemma_quadratic_mean_is_unique(mean: int, sum: nat, count: nat)
    requires
        is_quadratic_mean(mean, sum, count),
    ensures
        quadratic_mean(sum, count) == mean,
{
    let other = quadratic_mean(sum, count);
    if other < mean {
        assert((2 * other + 1) * (2 * other + 1) * count <= (2 * mean - 1) * (2 * mean - 1) * count)
            by (nonlinear_arith)
            requires
                0 <= 2 * other + 1 <= 2 * mean - 1,
                0 <= count,
        ;
    }
    if mean < other {
        assert((2 * mean + 1) * (2 * mean + 1) * count <= (2 * other - 1) * (2 * other - 1) * count)
            by (nonlinear_arith)
            requires
                0 <= 2 * mean + 1 <= 2 * other - 1,
                0 <= count,
        ;
    }
}

/// The quadratic mean of `count` channel values whose squares add up to
/// `sum`.
pub fn root_mean_square(sum: u128, count: usize) -> (mean: u8)
    requires
        count > 0,
        sum <= 65025 * count,
    ensures
        mean == quadratic_mean(sum as nat, count as nat),
{
    let scaled = 4 * sum;
    let mut low: u32 = 0;
    let mut high: u32 = 255;
    assert(4 * sum < (2 * 255 + 1) * (2 * 255 + 1) * count) by (nonlinear_arith)
        requires
            sum <= 65025 * count,
            count > 0,
    ;
    while low < high
        invariant
            low <= high <= 255,
            count > 0,
            scaled == 4 * sum,
            low == 0 || (2 * low - 1) * (2 * low - 1) * count <= 4 * sum,
            4 * sum < (2 * high + 1) * (2 * high + 1) * count,
        decreases high - low,
    {
        let mid = (low + high) / 2;
        let odd = (2 * mid + 1) as u128;
        assert(odd * odd <= 511 * 511) by (nonlinear_arith)
            requires
                0 <= odd <= 511,
        ;
        assert(odd * odd * count <= 511 * 511 * 0xffff_ffff_ffff_ffff) by (nonlinear_arith)
            requires
                0 <= odd * odd <= 511 * 511,
                0 <= count <= 0xffff_ffff_ffff_ffff,
        ;
        if scaled < odd * odd * (count as u128) {
            high = mid;
        } else {
            low = mid + 1;
        }
    }
    proof {
        lemma_quadratic_mean_is_unique(low as int, sum as nat, count as nat);
    }
    low as u8
}

/// What has been added up for one LED.
struct SegmentSums {
    red: u128,
    green: u128,
    blue: u128,
    count: usize,
}

impl SegmentSums {
    /// Whether these are the sums for LED `segment` over the first `upto`
    /// pixels of a frame.
    spec fn covers(
        self,
        pixels: Seq<u8>,
        map: Seq<Option<usize>>,
        segment: usize,
        upto: int,
    ) -> bool {
        &&& self.count == pixel_count(map, segment, upto)
        &&& self.red == square_sum(pixels, map, segment, 0, upto)
        &&& self.green == square_sum(pixels, map, segment, 1, upto)
        &&& self.blue == square_sum(pixels, map, segment, 2, upto)
    }
}

proof fn lemma_sums_are_bounded(
    pixels: Seq<u8>,
    map: Seq<Option<usize>>,
    segment: usize,
    channel: int,
    upto: int,
)
    requires
        0 <= upto,
    ensures
        pixel_count(map, segment, upto) <= upto,
        square_sum(pixels, map, segment, channel, upto) <= 65025 * pixel_count(map, segment, upto),
    decreases upto,
{
    if upto > 0 {
        lemma_sums_are_bounded(pixels, map, segment, channel, upto - 1);
        let value = pixels[3 * (upto - 1) + channel] as nat;
        assert(value * value <= 65025) by (nonlinear_arith)
            requires
                value <= 255,
        ;
    }
}

/// Averages the pixels of a frame into one colour for each of `num_leds`
/// LEDs. `pixels` holds red, green and blue of each pixel, row by row, and
/// `segment_map` the LED of each pixel.
pub fn aggregate_frame(pixels: &[u8], segment_map: &Vec<Option<usize>>, num_leds: usize) -> (colors:
    Result<Vec<APA102DataFrame>, FrameError>)
    ensures
        pixels.len() != 3 * segment_map.len() ==> colors == Err::<Vec<APA102DataFrame>, FrameError>(
            FrameError::LengthMismatch,
        ),
        pixels.len() == 3 * segment_map.len() && !segments_in_range(segment_map@, num_leds)
            ==> colors == Err::<Vec<APA102DataFrame>, FrameError>(FrameError::SegmentOutOfRange),
        pixels.len() == 3 * segment_map.len() && segments_in_range(segment_map@, num_leds)
            ==> colors is Ok && colors->Ok_0@ == frame_colors(pixels@, segment_map@, num_leds),
{
    let pixel_total = segment_map.len();
    if pixels.len() % 3 != 0 || pixels.len() / 3 != pixel_total {
        return Err(FrameError::LengthMismatch);
    }
    let mut sums: Vec<SegmentSums> = Vec::new();
    for segment in 0..num_leds
        invariant
            sums.len() == segment,
            forall|s: int|
                0 <= s < segment ==> (#[trigger] sums@[s]).covers(
                    pixels@,
                    segment_map@,
                    s as usize,
                    0,
                ),
    {
        sums.push(SegmentSums { red: 0, green: 0, blue: 0, count: 0 });
    }
    for index in 0..pixel_total
        invariant
            pixel_total == segment_map.len(),
            pixels.len() == 3 * pixel_total,
            sums.len() == num_leds,
            forall|s: int|
                0 <= s < num_leds ==> (#[trigger] sums@[s]).covers(
                    pixels@,
                    segment_map@,
                    s as usize,
                    index as int,
                ),
            forall|i: int|
                0 <= i < index ==> (#[trigger] segment_map@[i] matches Some(segment) ==> segment
                    < num_leds),
    {
        if let Some(segment) = segment_map[index] {
            if segment >= num_leds {
                return Err(FrameError::SegmentOutOfRange);
            }
            let red = pixels[3 * index] as u128;
            let green = pixels[3 * index + 1] as u128;
            let blue = pixels[3 * index + 2] as u128;
            proof {
                lemma_sums_are_bounded(pixels@, segment_map@, segment, 0, index as int);
                lemma_sums_are_bounded(pixels@, segment_map@, segment, 1, index as int);
                lemma_sums_are_bounded(pixels@, segment_map@, segment, 2, index as int);
                assert(red * red <= 65025) by (nonlinear_arith)
                    requires
                        red <= 255,
                ;
                assert(green * green <= 65025) by (nonlinear_arith)
                    requires
                        green <= 255,
                ;
                assert(blue * blue <= 65025) by (nonlinear_arith)
                    requires
                        blue <= 255,
                ;
            }
            let old_sums = &sums[segment];
            let new_sums = SegmentSums {
                red: old_sums.red + red * red,
                green: old_sums.green + green * green,
                blue: old_sums.blue + blue * blue,
                count: old_sums.count + 1,
            };
            sums[segment] = new_sums;
        }
    }
    let mut colors: Vec<APA102DataFrame> = Vec::new();
    for segment in 0..num_leds
        invariant
            pixel_total == segment_map.len(),
            sums.len() == num_leds,
            colors.len() == segment,
            forall|s: int|
                0 <= s < num_leds ==> (#[trigger] sums@[s]).covers(
                    pixels@,
                    segment_map@,
                    s as usize,
                    pixel_total as int,
                ),
            forall|s: int|
                0 <= s < segment ==> #[trigger] colors@[s] == segment_color(
                    pixels@,
                    segment_map@,
                    s as usize,
                ),
    {
        let segment_sums = &sums[segment];
        proof {
            lemma_sums_are_bounded(pixels@, segment_map@, segment, 0, pixel_total as int);
            lemma_sums_are_bounded(pixels@, segment_map@, segment, 1, pixel_total as int);
            lemma_sums_are_bounded(pixels@, segment_map@, segment, 2, pixel_total as int);
        }
        let color = if segment_sums.count == 0 {
            APA102DataFrame(0, 0, 0)
        } else {
            APA102DataFrame(
                root_mean_square(segment_sums.red, segment_sums.count),
                root_mean_square(segment_sums.green, segment_sums.count),
                root_mean_square(segment_sums.blue, segment_sums.count),
            )
        };
        colors.push(color);
    }
    Ok(colors)
}

/// Gives each LED of `strip` its colour for a frame. A frame that is
/// refused leaves the strip as it was.
pub fn apply_frame<const N: usize>(
    strip: &mut LEDStrip<N>,
    pixels: &[u8],
    segment_map: &Vec<Option<usize>>,
) -> (outcome: Result<(), FrameError>)
    ensures
        pixels.len() != 3 * segment_map.len() ==> outcome == Err::<(), FrameError>(
            FrameError::LengthMismatch,
        ) && *final(strip) == *old(strip),
        pixels.len() == 3 * segment_map.len() && !segments_in_range(segment_map@, N) ==> outcome
            == Err::<(), FrameError>(FrameError::SegmentOutOfRange) && *final(strip) == *old(strip),
        pixels.len() == 3 * segment_map.len() && segments_in_range(segment_map@, N) ==> outcome is Ok
            && final(strip)@ == frame_colors(pixels@, segment_map@, N),
{
    let colors = match aggregate_frame(pixels, segment_map, N) {
        Ok(colors) => colors,
        Err(error) => {
            return Err(error);
        },
    };
    proof {
        strip.lemma_view_len();
    }
    for index in 0..N
        invariant
            colors@ == frame_colors(pixels@, segment_map@, N),
            strip@.len() == N,
            forall|i: int| 0 <= i < index ==> #[trigger] strip@[i] == colors@[i],
    {
        let APA102DataFrame(r, g, b) = colors[index];
        let packed = from_u64_rgb(r as u64, g as u64, b as u64);
        proof {
            lemma_packed_color_unpacks(r as u64, g as u64, b as u64);
        }
        let _ = strip.set_led(index, packed);
    }
    Ok(())
}

} // verus!
