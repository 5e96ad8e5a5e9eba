//! Painting the pixel buffer: one grey value per pixel, from the escape time
//! of the pixel's point.

use crate::bounds::index_of;
use crate::bounds::lemma_index_in_grid;
use crate::bounds::lemma_place_has_pixel;
use crate::bounds::ImageBounds;
use crate::escape::LIMIT;
use vstd::prelude::*;

verus! {

/// The grey value for an escape time: black where the point never escaped,
/// else the brighter the sooner it did. Escape times count modulo 256.
pub open spec fn shade_of(escape: Option<usize>) -> u8 {
    match escape {
        None => 0u8,
        Some(count) => (255 - count % 256) as u8,
    }
}

/// The grey value for an escape time.
pub fn shade(escape: Option<usize>) -> (grey: u8)
    ensures
        grey == shade_of(escape),
        escape is None ==> grey == 0,
        escape is Some && escape->0 < 256 ==> grey == 255 - escape->0,
{
    match escape {
        None => 0,
        Some(count) => {
            let low: usize = count % 256;
            255 - (low as u8)
        },
    }
}

/// Within the renderer's budget the grey value tells the escape time: black
/// stands for no escape and for nothing else, and two different outcomes
/// never share a grey value.
pub proof fn lemma_shade_tells_escape(first: Option<usize>, second: Option<usize>)
    requires
        first is Some ==> first->0 < LIMIT,
        second is Some ==> second->0 < LIMIT,
    ensures
        shade_of(first) == 0 <==> first is None,
        shade_of(first) == shade_of(second) ==> first == second,
{
}

/// Whether `grey` is the grey value of an escape time that `escape_at` may
/// report for pixel (`column`, `row`).
pub open spec fn paints<F: Fn(usize, usize) -> Option<usize>>(
    escape_at: F,
    column: int,
    row: int,
    grey: u8,
) -> bool {
    exists|escape: Option<usize>|
        call_ensures(escape_at, (column as usize, row as usize), escape) && grey == #[trigger] shade_of(
            escape,
        )
}

/// Whether `pixels` is the row-major image of `bounds` in which every pixel
/// has the grey value of its escape time as `escape_at` reports it.
pub open spec fn is_rendering<F: Fn(usize, usize) -> Option<usize>>(
    escape_at: F,
    bounds: ImageBounds,
    pixels: Seq<u8>,
) -> bool {
    &&& pixels.len() == bounds.area()
    &&& forall|place: int|
        0 <= place < pixels.len() ==> paints(
            escape_at,
            place % (bounds.width as int),
            place / (bounds.width as int),
            #[trigger] pixels[place],
        )
}

/// Whether `escape_at` may be asked about every pixel of `bounds`.
pub open spec fn covers<F: Fn(usize, usize) -> Option<usize>>(
    escape_at: F,
    bounds: ImageBounds,
) -> bool {
    forall|column: usize, row: usize|
        column < bounds.width && row < bounds.height ==> #[trigger] call_requires(
            escape_at,
            (column, row),
        )
}

/// Whether `escape_at` reports one escape time per pixel, the same whenever
/// it is asked.
pub open spec fn is_settled<F: Fn(usize, usize) -> Option<usize>>(escape_at: F) -> bool {
    forall|column: usize, row: usize, first: Option<usize>, second: Option<usize>|
        #[trigger] call_ensures(escape_at, (column, row), first) && #[trigger] call_ensures(
            escape_at,
            (column, row),
            second,
        ) ==> first == second
}

/// Fills `pixels`, row by row, with the grey value of each pixel's escape
/// time, which `escape_at` reports for the pixel's column and row.
pub fn render<F: Fn(usize, usize) -> Option<usize>>(
    pixels: &mut [u8],
    bounds: ImageBounds,
    escape_at: F,
)
    requires
        bounds.wf(),
        old(pixels)@.len() == bounds.area(),
        covers(escape_at, bounds),
    ensures
        is_rendering(escape_at, bounds, final(pixels)@),
{
    let mut row: usize = 0;
    while row < bounds.height
        invariant
            bounds.wf(),
            covers(escape_at, bounds),
            row <= bounds.height,
            pixels@.len() == bounds.area(),
            forall|place: int|
                0 <= place < row * bounds.width ==> paints(
                    escape_at,
                    place % (bounds.width as int),
                    place / (bounds.width as int),
                    #[trigger] pixels@[place],
                ),
        decreases bounds.height - row,
    {
        let mut column: usize = 0;
        while column < bounds.width
            invariant
                bounds.wf(),
                covers(escape_at, bounds),
                row < bounds.height,
                column <= bounds.width,
                pixels@.len() == bounds.area(),
                forall|place: int|
                    0 <= place < row * bounds.width + column ==> paints(
                        escape_at,
                        place % (bounds.width as int),
                        place / (bounds.width as int),
                        #[trigger] pixels@[place],
                    ),
            decreases bounds.width - column,
        {
            let index = bounds.pixel_index(column, row);
            let escape = escape_at(column, row);
            let grey = shade(escape);
            pixels[index] = grey;
            proof {
                lemma_index_in_grid(
                    bounds.width as int,
                    bounds.height as int,
                    column as int,
                    row as int,
                );
                assert(paints(escape_at, column as int, row as int, grey));
            }
            column += 1;
        }
        proof {
            assert((row + 1) * bounds.width == row * bounds.width + bounds.width)
                by (nonlinear_arith);
        }
        row += 1;
    }
    proof {
        assert(row * bounds.width == bounds.area()) by (nonlinear_arith)
            requires
                row == bounds.height,
        ;
    }
}

/// Rendering twice gives the same buffer: where the escape times are
/// settled, two renderings of one image are equal, pixel for pixel.
pub proof fn lemma_rendering_is_unique<F: Fn(usize, usize) -> Option<usize>>(
    escape_at: F,
    bounds: ImageBounds,
    first: Seq<u8>,
    second: Seq<u8>,
)
    requires
        bounds.wf(),
        is_settled(escape_at),
        is_rendering(escape_at, bounds, first),
        is_rendering(escape_at, bounds, second),
    ensures
        first == second,
{
    assert forall|place: int| 0 <= place < first.len() implies first[place] == second[place] by {
        let column = place % (bounds.width as int);
        let row = place / (bounds.width as int);
        assert(paints(escape_at, column, row, first[place]));
        assert(paints(escape_at, column, row, second[place]));
    }
    assert(first =~= second);
}

/// The band of `row` in a buffer of rows `width` long.
pub open spec fn band_of(pixels: Seq<u8>, width: int, row: int) -> Seq<u8> {
    pixels.subrange(row * width, row * width + width)
}

/// Rendering band by band renders the image, whatever the order in which the
/// bands are filled and whoever fills them: where every band of `pixels` is a
/// rendering of its one row, by a `band_at(row)` that reports for (`column`,
/// 0) what `whole` may report for (`column`, `row`), `pixels` is a rendering
/// of the whole image by `whole`.
pub proof fn lemma_bands_make_image<
    F: Fn(usize, usize) -> Option<usize>,
    G: Fn(usize, usize) -> Option<usize>,
>(whole: F, band_at: spec_fn(int) -> G, bounds: ImageBounds, pixels: Seq<u8>)
    requires
        bounds.wf(),
        pixels.len() == bounds.area(),
        forall|row: int|
            0 <= row < bounds.height ==> is_rendering(
                band_at(row),
                (ImageBounds { width: bounds.width, height: 1 }),
                #[trigger] band_of(pixels, bounds.width as int, row),
            ),
        forall|row: int, column: usize, escape: Option<usize>|
            0 <= row < bounds.height && column < bounds.width && #[trigger] call_ensures(
                band_at(row),
                (column, 0usize),
                escape,
            ) ==> call_ensures(whole, (column, row as usize), escape),
    ensures
        is_rendering(whole, bounds, pixels),
{
    let width = bounds.width as int;
    let height = bounds.height as int;
    assert forall|place: int| 0 <= place < pixels.len() implies paints(
        whole,
        place % width,
        place / width,
        #[trigger] pixels[place],
    ) by {
        lemma_place_has_pixel(width, height, place);
        let column = place % width;
        let row = place / width;
        let band = band_of(pixels, width, row);
        assert(index_of(width, column, row) == place);
        assert(row * width + width <= width * height) by (nonlinear_arith)
            requires
                0 < width,
                0 <= row < height,
        ;
        assert(band[column] == pixels[place]);
        lemma_index_in_grid(width, 1, column, 0);
        assert(index_of(width, column, 0) == column);
        assert(paints(band_at(row), column, 0, band[column]));
        let escape = choose|escape: Option<usize>|
            call_ensures(band_at(row), (column as usize, 0usize), escape) && band[column]
                == #[trigger] shade_of(escape);
        assert(call_ensures(whole, (column as usize, row as usize), escape));
    }
}

} // verus!
