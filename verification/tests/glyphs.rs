use digitcount::error::CoreError;
use digitcount::glyph::{normalize, widest, GlyphSize, Raster, Things, Widest, DIGITS};
use digitcount::palette::{grayscale, Color};

fn size(width: usize, height: usize) -> GlyphSize {
    GlyphSize { width, height }
}

fn raster(width: usize, height: usize, fill: u8) -> Raster {
    Raster { size: size(width, height), coverage: vec![fill; width * height] }
}

#[test]
fn widest_finds_the_bounding_measures() {
    let sizes = vec![
        size(30, 44),
        size(18, 44),
        size(29, 45),
        size(31, 45),
        size(33, 44),
        size(30, 46),
        size(30, 46),
        size(33, 43),
        size(31, 45),
        size(30, 45),
    ];
    assert_eq!(
        widest(&sizes),
        Ok(Widest { wide_number: 4, width: 33, tall_number: 5, height: 46 })
    );
}

#[test]
fn widest_of_empty_glyphs_is_digit_zero() {
    let sizes = vec![size(0, 0); 10];
    assert_eq!(
        widest(&sizes),
        Ok(Widest { wide_number: 0, width: 0, tall_number: 0, height: 0 })
    );
}

#[test]
fn widest_needs_ten_sizes() {
    assert_eq!(DIGITS, 10);
    assert_eq!(widest(&vec![size(3, 4); 9]), Err(CoreError::GlyphCacheMiss));
    assert_eq!(widest(&vec![size(3, 4); 11]), Err(CoreError::GlyphCacheMiss));
    assert_eq!(widest(&Vec::new()), Err(CoreError::GlyphCacheMiss));
}

#[test]
fn normalize_centres_and_anchors_at_the_bottom() {
    let bounds = Widest { wide_number: 0, width: 4, tall_number: 0, height: 3 };
    let glyph = Raster { size: size(2, 2), coverage: vec![1, 2, 3, 4] };
    assert_eq!(
        normalize(&bounds, &glyph),
        Ok(vec![0, 0, 0, 0, 0, 1, 2, 0, 0, 3, 4, 0])
    );
}

#[test]
fn normalize_rounds_the_left_margin_down() {
    let bounds = Widest { wide_number: 0, width: 5, tall_number: 0, height: 2 };
    let glyph = Raster { size: size(2, 1), coverage: vec![7, 9] };
    assert_eq!(normalize(&bounds, &glyph), Ok(vec![0, 0, 0, 0, 0, 0, 7, 9, 0, 0]));
}

#[test]
fn normalize_keeps_a_full_size_glyph() {
    let bounds = Widest { wide_number: 0, width: 3, tall_number: 0, height: 2 };
    let glyph = Raster { size: size(3, 2), coverage: vec![1, 2, 3, 4, 5, 6] };
    assert_eq!(normalize(&bounds, &glyph), Ok(vec![1, 2, 3, 4, 5, 6]));
}

#[test]
fn normalize_of_an_empty_glyph_is_blank() {
    let bounds = Widest { wide_number: 0, width: 2, tall_number: 0, height: 2 };
    let glyph = Raster { size: size(0, 0), coverage: Vec::new() };
    assert_eq!(normalize(&bounds, &glyph), Ok(vec![0, 0, 0, 0]));
}

#[test]
fn normalize_rejects_what_does_not_fit() {
    let bounds = Widest { wide_number: 0, width: 2, tall_number: 0, height: 2 };
    assert_eq!(normalize(&bounds, &raster(3, 1, 1)), Err(CoreError::GlyphCacheMiss));
    assert_eq!(normalize(&bounds, &raster(1, 3, 1)), Err(CoreError::GlyphCacheMiss));
    let short = Raster { size: size(2, 2), coverage: vec![1, 2, 3] };
    assert_eq!(normalize(&bounds, &short), Err(CoreError::GlyphCacheMiss));
    let long = Raster { size: size(1, 1), coverage: vec![1, 2] };
    assert_eq!(normalize(&bounds, &long), Err(CoreError::GlyphCacheMiss));
}

#[test]
fn normalize_reports_a_cell_too_large_to_count() {
    let bounds = Widest { wide_number: 0, width: usize::MAX, tall_number: 0, height: 2 };
    assert_eq!(normalize(&bounds, &raster(1, 1, 1)), Err(CoreError::ArithmeticOverflow));
}

#[test]
fn build_normalises_every_digit() {
    let mut rasters = Vec::new();
    for d in 0..10usize {
        let width = 1 + d % 3;
        let height = 1 + d % 2;
        rasters.push(raster(width, height, 10 + d as u8));
    }
    let things = Things::build(&rasters).unwrap();
    assert_eq!(things.widest, Widest { wide_number: 2, width: 3, tall_number: 1, height: 2 });
    assert_eq!(things.numbers.len(), 10);
    for d in 0..10usize {
        assert_eq!(things.numbers[d].len(), 6);
        assert_eq!(Ok(things.numbers[d].clone()), normalize(&things.widest, &rasters[d]));
    }
    assert_eq!(things.numbers[0], vec![0, 0, 0, 0, 10, 0]);
    assert_eq!(things.numbers[1], vec![11, 11, 0, 11, 11, 0]);
    assert_eq!(things.numbers[2], vec![0, 0, 0, 12, 12, 12]);
    assert_eq!(things.numbers[5], vec![15, 15, 15, 15, 15, 15]);
}

#[test]
fn build_needs_all_ten_digits() {
    let nine: Vec<Raster> = (0..9).map(|_| raster(2, 2, 1)).collect();
    assert!(matches!(Things::build(&nine), Err(CoreError::GlyphCacheMiss)));
    let mut ten: Vec<Raster> = (0..10).map(|_| raster(2, 2, 1)).collect();
    assert!(Things::build(&ten).is_ok());
    ten[7].coverage.pop();
    assert!(matches!(Things::build(&ten), Err(CoreError::GlyphCacheMiss)));
}

#[test]
fn build_reports_a_cell_too_large_to_count() {
    let mut ten: Vec<Raster> = (0..10).map(|_| raster(1, 1, 1)).collect();
    ten[3] = Raster { size: size(usize::MAX, 0), coverage: Vec::new() };
    ten[4] = Raster { size: size(0, 2), coverage: Vec::new() };
    assert!(matches!(Things::build(&ten), Err(CoreError::ArithmeticOverflow)));
    ten[9].coverage.push(0);
    assert!(matches!(Things::build(&ten), Err(CoreError::GlyphCacheMiss)));
}

#[test]
fn grayscale_is_a_ramp_of_256_grays() {
    let palette = grayscale();
    assert_eq!(palette.len(), 256);
    for (i, color) in palette.iter().enumerate() {
        assert_eq!(*color, Color { r: i as u8, g: i as u8, b: i as u8 });
    }
    assert_eq!(palette[0], Color { r: 0, g: 0, b: 0 });
    assert_eq!(palette[255], Color { r: 255, g: 255, b: 255 });
}
