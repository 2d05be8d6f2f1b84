//! Per-frame pixel-buffer fill: a pure function of the pixel coordinates.

use vstd::prelude::*;

verus! {

/// The maximum color sample value.
pub const MAX_SAMPLE: u8 = 255;

/// The green channel of the pixel at column `x`, row `y`: the maximum sample
/// value below the diagonal (`x > y`), zero elsewhere. Red and blue are
/// always zero.
pub open spec fn green_at(x: int, y: int) -> u8 {
    if x > y {
        MAX_SAMPLE
    } else {
        0
    }
}

/// Index of the first byte of the pixel at column `x`, row `y`, in a buffer
/// whose rows are `pitch` bytes apart and whose cells are 4 bytes wide
/// (3 active color channels, 1 padding byte).
pub open spec fn pixel_offset(pitch: int, x: int, y: int) -> int {
    y * pitch + 4 * x
}

/// The three active bytes of the pixel at (`x`, `y`) hold the pattern:
/// red 0, green `green_at(x, y)`, blue 0.
pub open spec fn filled_at(data: Seq<u8>, pitch: int, x: int, y: int) -> bool {
    &&& data[pixel_offset(pitch, x, y)] == 0u8
    &&& data[pixel_offset(pitch, x, y) + 1] == green_at(x, y)
    &&& data[pixel_offset(pitch, x, y) + 2] == 0u8
}

/// Byte `i` is one of the three active bytes of some pixel of a
/// `width x height` buffer: every other byte is left untouched by the fill.
pub open spec fn cell_written(pitch: int, width: int, height: int, i: int) -> bool {
    exists|x: int, y: int|
        0 <= x < width && 0 <= y < height && #[trigger] pixel_offset(pitch, x, y) <= i
            < pixel_offset(pitch, x, y) + 3
}

/// Every pixel cell lies within the first `pitch * height` bytes.
proof fn lemma_offset_in_bounds(pitch: int, width: int, height: int, x: int, y: int) by (nonlinear_arith)
    requires
        0 <= x < width,
        0 <= y < height,
        4 * width <= pitch,
    ensures
        0 <= y * pitch,
        y * pitch + 4 * x + 3 <= pitch * height,
{
}

/// Cells of distinct pixels occupy disjoint byte ranges (each cell spans
/// bytes `offset .. offset + 4`, and rows are at least `4 * width` apart).
proof fn lemma_offsets_distinct(
    pitch: int,
    width: int,
    xa: int,
    ya: int,
    xb: int,
    yb: int,
) by (nonlinear_arith)
    requires
        0 <= xa < width,
        0 <= xb < width,
        0 <= ya,
        0 <= yb,
        4 * width <= pitch,
        xa != xb || ya != yb,
    ensures
        ya * pitch + 4 * xa + 3 < yb * pitch + 4 * xb || yb * pitch + 4 * xb + 3 < ya * pitch + 4
            * xa,
{
}

/// Overwrite a `width x height` pixel grid in `data` with the pattern:
/// each pixel's red and blue bytes zero, its green byte `green_at(x, y)`.
/// Rows start `pitch` bytes apart; each pixel cell is 4 bytes wide, and its
/// fourth byte, like every byte outside the grid, is left unchanged.
/// A zero `width` or `height` yields an empty grid and no work.
pub fn fill_pattern(data: &mut Vec<u8>, pitch: usize, width: usize, height: usize)
    requires
        4 * width <= pitch,
        pitch * height <= old(data).len(),
    ensures
        final(data).len() == old(data).len(),
        forall|x: int, y: int|
            0 <= x < width && 0 <= y < height ==> filled_at(final(data)@, pitch as int, x, y),
        forall|i: int|
            0 <= i < final(data).len() && !cell_written(
                pitch as int,
                width as int,
                height as int,
                i,
            ) ==> final(data)[i] == old(data)[i],
{
    let mut y: usize = 0;
    while y < height
        invariant
            y <= height,
            4 * width <= pitch,
            pitch * height <= data.len(),
            data.len() == old(data).len(),
            forall|x2: int, y2: int|
                0 <= x2 < width && 0 <= y2 < y ==> filled_at(data@, pitch as int, x2, y2),
            forall|i: int|
                0 <= i < data.len() && !cell_written(pitch as int, width as int, height as int, i)
                    ==> data[i] == old(data)[i],
        decreases height - y,
    {
        let mut x: usize = 0;
        while x < width
            invariant
                x <= width,
                y < height,
                4 * width <= pitch,
                pitch * height <= data.len(),
                data.len() == old(data).len(),
                forall|x2: int, y2: int|
                    0 <= x2 < width && 0 <= y2 < y ==> filled_at(data@, pitch as int, x2, y2),
                forall|x2: int| 0 <= x2 < x ==> filled_at(data@, pitch as int, x2, y as int),
                forall|i: int|
                    0 <= i < data.len() && !cell_written(
                        pitch as int,
                        width as int,
                        height as int,
                        i,
                    ) ==> data[i] == old(data)[i],
            decreases width - x,
        {
            proof {
                lemma_offset_in_bounds(pitch as int, width as int, height as int, x as int, y as int);
            }
            let base: usize = y * pitch + 4 * x;
            let ghost prev = data@;
            let green: u8 = if x > y {
                MAX_SAMPLE
            } else {
                0
            };
            data[base] = 0u8;
            data[base + 1] = green;
            data[base + 2] = 0u8;
            proof {
                assert(base == pixel_offset(pitch as int, x as int, y as int));
                assert(filled_at(data@, pitch as int, x as int, y as int));
                assert forall|x2: int, y2: int|
                    0 <= x2 < width && 0 <= y2 < y implies filled_at(data@, pitch as int, x2, y2) by {
                    lemma_offsets_distinct(pitch as int, width as int, x2, y2, x as int, y as int);
                    lemma_offset_in_bounds(pitch as int, width as int, height as int, x2, y2);
                    assert(filled_at(prev, pitch as int, x2, y2));
                }
                assert forall|x2: int| 0 <= x2 < x implies filled_at(
                    data@,
                    pitch as int,
                    x2,
                    y as int,
                ) by {
                    lemma_offsets_distinct(pitch as int, width as int, x2, y as int, x as int, y as int);
                    lemma_offset_in_bounds(pitch as int, width as int, height as int, x2, y as int);
                    assert(filled_at(prev, pitch as int, x2, y as int));
                }
                assert forall|i: int| base <= i < base + 3 implies cell_written(
                    pitch as int,
                    width as int,
                    height as int,
                    i,
                ) by {
                    assert(pixel_offset(pitch as int, x as int, y as int) <= i < pixel_offset(
                        pitch as int,
                        x as int,
                        y as int,
                    ) + 3);
                }
            }
            x += 1;
        }
        y += 1;
    }
}

} // verus!
