//! The table that assigns each pixel of a frame to an LED, or to none.
//!
//! The LEDs run around the frame's perimeter. A pixel belongs to the LED
//! whose sector of the full turn holds the pixel's direction from the frame
//! centre. Pixels near the centre belong to no LED, so that what happens in
//! the middle of the picture does not colour the border.
//!
//! The direction of a pixel is an angle, and this module holds no
//! floating-point code: the caller works out, for each pixel, the number of
//! the sector that its angle falls in, from the offsets that `pixel_offset`
//! returns, and `build_segment_map` does the rest.

use vstd::prelude::*;

verus! {

/// Why no table was built.
#[derive(Clone, Copy, Debug, PartialEq, Eq, Structural)]
pub enum SegmentMapError {
    /// The strip has no LED to assign a pixel to.
    NoLeds,
    /// There is not exactly one sector number for each pixel.
    SectorCountMismatch,
}

/// How far column `x` lies left of the frame centre.
pub open spec fn pixel_dx(width: u32, x: int) -> int {
    width as int / 2 - x
}

/// How far row `y` lies below the frame centre.
pub open spec fn pixel_dy(height: u32, y: int) -> int {
    y - height as int / 2
}

/// The radius of the dead zone round the frame centre: half of the shorter
/// half-side.
pub open spec fn dead_zone_radius(width: u32, height: u32) -> int {
    if width / 2 <= height / 2 {
        width as int / 2 / 2
    } else {
        height as int / 2 / 2
    }
}

/// Whether the pixel at column `x`, row `y` lies nearer to the frame centre
/// than the dead zone's radius.
pub open spec fn in_dead_zone(width: u32, height: u32, x: int, y: int) -> bool {
    let dx = pixel_dx(width, x);
    let dy = pixel_dy(height, y);
    let edge = dead_zone_radius(width, height);
    dx * dx + dy * dy < edge * edge
}

/// The LED of the pixel at column `x`, row `y`, whose direction falls in
/// sector `sector`: none inside the dead zone, else the sector's LED, the
/// last LED for a sector number past the end.
pub open spec fn segment_of(
    num_leds: usize,
    width: u32,
    height: u32,
    x: int,
    y: int,
    sector: usize,
) -> Option<usize> {
    if in_dead_zone(width, height, x, y) {
        None
    } else if sector < num_leds {
        Some(sector)
    } else {
        Some((num_leds - 1) as usize)
    }
}

/// The place of the pixel at column `x`, row `y` in a row-major frame.
pub open spec fn pixel_index(width: u32, x: int, y: int) -> int {
    y * width + x
}

/// Whether `table` is the segment map of a `width` by `height` frame for
/// `num_leds` LEDs, given the sector number of each pixel.
pub open spec fn is_segment_map(
    table: Seq<Option<usize>>,
    num_leds: usize,
    width: u32,
    height: u32,
    sectors: Seq<usize>,
) -> bool {
    &&& table.len() == width * height
    &&& forall|x: int, y: int|
        0 <= x < width && 0 <= y < height ==> #[trigger] table[pixel_index(width, x, y)]
            == segment_of(num_leds, width, height, x, y, sectors[pixel_index(width, x, y)])
}

/// Whether every entry of `table` names an LED of a strip of `num_leds`.
pub open spec fn segments_in_range(table: Seq<Option<usize>>, num_leds: usize) -> bool {
    forall|i: int|
        0 <= i < table.len() ==> (#[trigger] table[i] matches Some(segment) ==> segment < num_leds)
}

proof fn lemma_pixel_index_bounds(width: u32, height: u32, x: int, y: int)
    requires
        0 <= x < width,
        0 <= y < height,
    ensures
        y * width <= pixel_index(width, x, y) < (y + 1) * width <= width * height,
        0 <= pixel_index(width, x, y),
{
    assert((y + 1) * width == y * width + width) by (nonlinear_arith);
    assert((y + 1) * width <= width * height) by (nonlinear_arith)
        requires
            0 <= y + 1 <= height,
            0 <= width,
    ;
    assert(0 <= y * width) by (nonlinear_arith)
        requires
            0 <= y,
            0 <= width,
    ;
}

proof fn lemma_pixel_index_grows(width: u32, x1: int, y1: int, x2: int, y2: int)
    requires
        0 <= x1 < width,
        0 <= x2 < width,
        0 <= y1 < y2,
    ensures
        pixel_index(width, x1, y1) < pixel_index(width, x2, y2),
{
    assert((y1 + 1) * width <= y2 * width) by (nonlinear_arith)
        requires
            y1 + 1 <= y2,
            0 <= width,
    ;
    assert((y1 + 1) * width == y1 * width + width) by (nonlinear_arith);
}

/// The offsets of the pixel at column `x`, row `y` from the frame centre,
/// leftwards and downwards: the two numbers whose angle decides the pixel's
/// sector.
pub fn pixel_offset(width: u32, height: u32, x: u32, y: u32) -> (offset: (i64, i64))
    ensures
        offset.0 == pixel_dx(width, x as int),
        offset.1 == pixel_dy(height, y as int),
{
    let dx = (width / 2) as i64 - x as i64;
    let dy = y as i64 - (height / 2) as i64;
    (dx, dy)
}

/// The LED of one pixel, given the sector that its direction falls in.
pub fn segment_for_pixel(
    num_leds: usize,
    width: u32,
    height: u32,
    x: u32,
    y: u32,
    sector: usize,
) -> (segment: Option<usize>)
    requires
        num_leds > 0,
    ensures
        segment == segment_of(num_leds, width, height, x as int, y as int, sector),
{
    let half_width = width / 2;
    let half_height = height / 2;
    let edge = (if half_width <= half_height {
        half_width
    } else {
        half_height
    } / 2) as i128;
    let dx = half_width as i128 - x as i128;
    let dy = y as i128 - half_height as i128;
    assert(0 <= dx * dx <= 0x1_0000_0000_0000_0000) by (nonlinear_arith)
        requires
            -0x1_0000_0000 <= dx <= 0x1_0000_0000,
    ;
    assert(0 <= dy * dy <= 0x1_0000_0000_0000_0000) by (nonlinear_arith)
        requires
            -0x1_0000_0000 <= dy <= 0x1_0000_0000,
    ;
    assert(0 <= edge * edge <= 0x1_0000_0000_0000_0000) by (nonlinear_arith)
        requires
            0 <= edge <= 0x1_0000_0000,
    ;
    if dx * dx + dy * dy < edge * edge {
        None
    } else if sector < num_leds {
        Some(sector)
    } else {
        Some(num_leds - 1)
    }
}

/// Builds the segment map of a `width` by `height` frame for a strip of
/// `num_leds` LEDs. `sectors` holds, row by row, the sector number of each
/// pixel: the whole part of the pixel's angle, counted from zero up to the
/// full turn, times `num_leds` over the full turn.
pub fn build_segment_map(num_leds: usize, width: u32, height: u32, sectors: &Vec<usize>) -> (table:
    Result<Vec<Option<usize>>, SegmentMapError>)
    ensures
        num_leds == 0 ==> table == Err::<Vec<Option<usize>>, SegmentMapError>(
            SegmentMapError::NoLeds,
        ),
        num_leds > 0 && sectors.len() != width * height ==> table == Err::<
            Vec<Option<usize>>,
            SegmentMapError,
        >(SegmentMapError::SectorCountMismatch),
        num_leds > 0 && sectors.len() == width * height ==> table is Ok && is_segment_map(
            table->Ok_0@,
            num_leds,
            width,
            height,
            sectors@,
        ),
        table matches Ok(map) ==> map.len() == width * height && segments_in_range(
            map@,
            num_leds,
        ),
{
    if num_leds == 0 {
        return Err(SegmentMapError::NoLeds);
    }
    assert(width * height <= 0xffff_ffff * 0xffff_ffff) by (nonlinear_arith)
        requires
            0 <= width <= 0xffff_ffff,
            0 <= height <= 0xffff_ffff,
    ;
    let pixels = width as u64 * height as u64;
    if sectors.len() as u64 != pixels {
        return Err(SegmentMapError::SectorCountMismatch);
    }
    let mut segment_table: Vec<Option<usize>> = Vec::new();
    let mut y: u32 = 0;
    while y < height
        invariant
            num_leds > 0,
            y <= height,
            sectors.len() == width * height,
            segment_table.len() == y * width,
            segments_in_range(segment_table@, num_leds),
            forall|px: int, py: int|
                0 <= px < width && 0 <= py < y ==> #[trigger] segment_table@[pixel_index(
                    width,
                    px,
                    py,
                )] == segment_of(
                    num_leds,
                    width,
                    height,
                    px,
                    py,
                    sectors@[pixel_index(width, px, py)],
                ),
        decreases height - y,
    {
        let mut x: u32 = 0;
        while x < width
            invariant
                num_leds > 0,
                y < height,
                x <= width,
                sectors.len() == width * height,
                segment_table.len() == y * width + x,
                segments_in_range(segment_table@, num_leds),
                forall|px: int, py: int|
                    0 <= px < width && 0 <= py < y ==> #[trigger] segment_table@[pixel_index(
                        width,
                        px,
                        py,
                    )] == segment_of(
                        num_leds,
                        width,
                        height,
                        px,
                        py,
                        sectors@[pixel_index(width, px, py)],
                    ),
                forall|px: int|
                    0 <= px < x ==> #[trigger] segment_table@[pixel_index(width, px, y as int)]
                        == segment_of(
                        num_leds,
                        width,
                        height,
                        px,
                        y as int,
                        sectors@[pixel_index(width, px, y as int)],
                    ),
            decreases width - x,
        {
            proof {
                lemma_pixel_index_bounds(width, height, x as int, y as int);
            }
            let ghost before = segment_table@;
            let index = segment_table.len();
            let segment = segment_for_pixel(num_leds, width, height, x, y, sectors[index]);
            segment_table.push(segment);
            proof {
                assert forall|px: int, py: int| 0 <= px < width && 0 <= py < y implies #[trigger]
                    segment_table@[pixel_index(width, px, py)] == before[pixel_index(
                    width,
                    px,
                    py,
                )] by {
                    lemma_pixel_index_grows(width, px, py, x as int, y as int);
                }
            }
            x += 1;
        }
        proof {
            assert((y + 1) * width == y * width + width) by (nonlinear_arith);
        }
        y += 1;
    }
    proof {
        assert(height * width == width * height) by (nonlinear_arith);
    }
    Ok(segment_table)
}

/// Every entry of a segment map is none or an LED of the strip, and the
/// map has one entry for each pixel.
pub proof fn lemma_segment_map_in_range(
    table: Seq<Option<usize>>,
    num_leds: usize,
    width: u32,
    height: u32,
    sectors: Seq<usize>,
)
    requires
        num_leds >= 1,
        is_segment_map(table, num_leds, width, height, sectors),
    ensures
        table.len() == width * height,
        segments_in_range(table, num_leds),
{
    assert forall|i: int| 0 <= i < table.len() implies (#[trigger] table[i] matches Some(segment)
        ==> segment < num_leds) by {
        if width > 0 {
            let x = i % (width as int);
            let y = i / (width as int);
            vstd::arithmetic::div_mod::lemma_fundamental_div_mod(i, width as int);
            assert(i == pixel_index(width, x, y)) by (nonlinear_arith)
                requires
                    i == width * y + x,
            ;
            assert(y < height) by (nonlinear_arith)
                requires
                    i < width * height,
                    i == width * y + x,
                    0 <= x,
                    0 < width,
            ;
            assert(0 <= y) by (nonlinear_arith)
                requires
                    0 <= i,
                    i == width * y + x,
                    x < width,
                    0 < width,
            ;
            assert(table[pixel_index(width, x, y)] == segment_of(
                num_leds,
                width,
                height,
                x,
                y,
                sectors[pixel_index(width, x, y)],
            ));
        } else {
            assert(width * height == 0) by (nonlinear_arith)
                requires
                    width == 0,
            ;
        }
    }
}

/// The pixel at the frame centre belongs to no LED, whatever its sector, in
/// a frame that is at least four pixels wide and four pixels high.
pub proof fn lemma_center_is_unmapped(num_leds: usize, width: u32, height: u32, sector: usize)
    requires
        width >= 4,
        height >= 4,
    ensures
        segment_of(num_leds, width, height, width as int / 2, height as int / 2, sector) is None,
{
    let edge = dead_zone_radius(width, height);
    assert(0 < edge * edge) by (nonlinear_arith)
        requires
            edge >= 1,
    ;
}

/// A pixel outside the dead zone whose sector number is that of the last
/// LED, or past it, belongs to the last LED.
pub proof fn lemma_last_sector_is_last_led(
    num_leds: usize,
    width: u32,
    height: u32,
    x: int,
    y: int,
    sector: usize,
)
    requires
        num_leds >= 1,
        sector >= num_leds - 1,
        !in_dead_zone(width, height, x, y),
    ensures
        segment_of(num_leds, width, height, x, y, sector) == Some((num_leds - 1) as usize),
{
}

} // verus!
