use mandelbrot::bounds::ImageBounds;
use mandelbrot::escape::LIMIT;
use mandelbrot::render::{render, shade};

/// A made-up escape time for each pixel: none on the diagonal.
fn pattern(column: usize, row: usize) -> Option<usize> {
    if column == row {
        None
    } else {
        Some(10 * row + column)
    }
}

#[test]
fn shade_is_black_without_escape() {
    assert_eq!(shade(None), 0);
}

#[test]
fn shade_is_brighter_the_sooner_the_escape() {
    assert_eq!(shade(Some(0)), 255);
    assert_eq!(shade(Some(1)), 254);
    assert_eq!(shade(Some(3)), 252);
    assert_eq!(shade(Some(254)), 1);
    assert_eq!(shade(Some(255)), 0);
}

#[test]
fn shade_counts_modulo_256() {
    assert_eq!(shade(Some(256)), 255);
    assert_eq!(shade(Some(257)), 254);
    assert_eq!(shade(Some(511)), 0);
}

#[test]
fn render_fills_every_pixel_row_by_row() {
    let bounds = ImageBounds::new(3, 2).unwrap();
    let mut pixels = vec![7u8; 6];
    render(&mut pixels, bounds, pattern);
    assert_eq!(pixels, vec![0, 254, 253, 245, 0, 243]);
}

#[test]
fn render_of_one_pixel() {
    let bounds = ImageBounds::new(1, 1).unwrap();
    let mut pixels = vec![9u8];
    render(&mut pixels, bounds, |_, _| Some(5));
    assert_eq!(pixels, vec![250]);
}

#[test]
fn render_asks_for_each_pixel_by_column_and_row() {
    let bounds = ImageBounds::new(4, 3).unwrap();
    let mut pixels = vec![0u8; 12];
    render(&mut pixels, bounds, |column, row| Some(16 * row + column));
    for row in 0..3 {
        for column in 0..4 {
            let expected = 255 - (16 * row + column) as u8;
            assert_eq!(pixels[bounds.pixel_index(column, row)], expected);
        }
    }
}

#[test]
fn render_twice_gives_the_same_buffer() {
    let bounds = ImageBounds::new(10, 10).unwrap();
    let mut first = vec![0u8; 100];
    let mut second = vec![255u8; 100];
    render(&mut first, bounds, pattern);
    render(&mut second, bounds, pattern);
    assert_eq!(first, second);
    render(&mut first, bounds, pattern);
    assert_eq!(first, second);
}

#[test]
fn render_by_bands_gives_the_whole_image() {
    let bounds = ImageBounds::new(100, 100).unwrap();
    let mut whole = vec![0u8; bounds.pixel_count()];
    render(&mut whole, bounds, pattern);

    // The bands, filled last row first.
    let mut banded = vec![0u8; bounds.pixel_count()];
    let band_bounds = bounds.band();
    for (row, band) in banded.chunks_mut(bounds.width).enumerate().rev() {
        render(band, band_bounds, |column, _| pattern(column, row));
    }
    assert_eq!(banded, whole);

    // The bands, dealt out to any number of workers in turn.
    for workers in [1usize, 3, 7, 100, 128] {
        let mut dealt = vec![0u8; bounds.pixel_count()];
        for worker in 0..workers {
            for (row, band) in dealt.chunks_mut(bounds.width).enumerate() {
                if row % workers == worker {
                    render(band, band_bounds, |column, _| pattern(column, row));
                }
            }
        }
        assert_eq!(dealt, whole);
    }
}

#[test]
fn bands_lie_where_band_start_says() {
    let bounds = ImageBounds::new(5, 4).unwrap();
    let mut whole = vec![0u8; 20];
    render(&mut whole, bounds, pattern);
    for row in 0..4 {
        let mut band = vec![0u8; 5];
        render(&mut band, bounds.band(), |column, _| pattern(column, row));
        let start = bounds.band_start(row);
        assert_eq!(&whole[start..start + 5], &band[..]);
    }
}

#[test]
fn shade_within_the_budget_tells_the_escape() {
    assert_eq!(LIMIT, 255);
    let mut seen = vec![false; 256];
    assert_eq!(shade(None), 0);
    seen[0] = true;
    for count in 0..LIMIT {
        let grey = shade(Some(count));
        assert_eq!(usize::from(grey), 255 - count);
        assert!(grey > 0);
        assert!(!seen[usize::from(grey)]);
        seen[usize::from(grey)] = true;
    }
}
