use tiler::renderer::{GRID_CELLS, PIXEL_BYTES};
use tiler::scale::UNIT;
use tiler::{ColorMap, CustomColormap, Dataset, ImgTile, Renderer, Scale, Tile, TileData, TileError};

/// A grid that covers the world, a row and a column every 5000 km.
fn world() -> Dataset {
    let axis: Vec<i64> = (-4..=4).map(|i| i * 5_000_000_000).collect();
    Dataset::new(axis.clone(), axis, Some(-9999)).unwrap()
}

/// The samples of the whole grid: ten times the row plus the column, in
/// whole units.
fn samples() -> Vec<Option<i64>> {
    let mut values = Vec::new();
    for i in 0..9 {
        for j in 0..9 {
            values.push(Some((i * 10 + j) * UNIT));
        }
    }
    values
}

fn renderer(scale: Scale, color_map: ColorMap) -> Renderer {
    Renderer::from_dataset(world(), scale, color_map).unwrap()
}

fn no_curve(_: i64) -> i64 {
    0
}

fn addresses(imgs: &Vec<ImgTile>) -> Vec<(u32, u32, u32)> {
    imgs.iter().map(|t| (t.x, t.y, t.z)).collect()
}

#[test]
fn renderer_checks_what_it_is_given() {
    let bad_palette = ColorMap::Custom(CustomColormap { values: vec![1, 2], colors: vec![] });
    assert!(matches!(
        Renderer::from_dataset(world(), Scale::Equal, bad_palette),
        Err(TileError::PaletteParse)
    ));
    let mut bad_dataset = world();
    bad_dataset.lat = vec![];
    assert!(matches!(
        Renderer::from_dataset(bad_dataset, Scale::Equal, ColorMap::Grayscale),
        Err(TileError::InputGeometry)
    ));
    assert!(Renderer::from_dataset(world(), Scale::Equal, ColorMap::Grayscale).is_ok());
}

#[test]
fn pixel_of_a_value() {
    let r = renderer(Scale::Linear { min: 0, max: 20 * UNIT }, ColorMap::RdYlBu);
    assert_eq!(r.value_to_rgba(None, &no_curve), [0, 0, 0, 0]);
    assert_eq!(r.value_to_rgba(Some(0), &no_curve), [165, 0, 38, 255]);
    assert_eq!(r.value_to_rgba(Some(10 * UNIT), &no_curve), [255, 255, 191, 255]);
    assert_eq!(r.value_to_rgba(Some(1 * UNIT), &no_curve), [190, 24, 38, 255]);
    assert_eq!(r.value_to_rgba(Some(99 * UNIT), &no_curve), [49, 54, 149, 255]);
    assert_eq!(r.rgba_with(Some(10 * UNIT), 123), [255, 255, 191, 255]);
    assert_eq!(r.rgba_with(None, 123), [0, 0, 0, 0]);
}

#[test]
fn pixel_of_a_value_on_a_curved_scale() {
    let r = renderer(Scale::Log { min: 0, max: 20 * UNIT }, ColorMap::RdYlBu);
    let half = |_: i64| UNIT / 2;
    assert_eq!(r.value_to_rgba(Some(UNIT), &half), [255, 255, 191, 255]);
    // outside the range the curve is not asked
    assert_eq!(r.value_to_rgba(Some(-1), &half), [165, 0, 38, 255]);
    assert_eq!(r.value_to_rgba(Some(21 * UNIT), &half), [49, 54, 149, 255]);
    // the curve gets the value
    let echo = |v: i64| v / 20;
    assert_eq!(r.value_to_rgba(Some(2 * UNIT), &echo), [215, 48, 39, 255]);
    // what the curve gives is held within the range
    let wild = |_: i64| i64::MAX;
    assert_eq!(r.value_to_rgba(Some(UNIT), &wild), [49, 54, 149, 255]);
    let e = renderer(Scale::Exponential { min: 0, max: 20 * UNIT }, ColorMap::RdYlBu);
    assert_eq!(e.value_to_rgba(Some(0), &half), [165, 0, 38, 255]);
    assert_eq!(e.value_to_rgba(Some(1), &half), [255, 255, 191, 255]);
    assert_eq!(e.value_to_rgba(Some(20 * UNIT), &half), [49, 54, 149, 255]);
}

#[test]
fn pixel_of_a_value_taken_as_its_own_position() {
    let r = renderer(Scale::Equal, ColorMap::Grayscale);
    assert_eq!(r.value_to_rgba(Some(UNIT / 2), &no_curve), [127, 127, 127, 255]);
    assert_eq!(r.value_to_rgba(Some(UNIT), &no_curve), [0, 0, 0, 255]);
    let palette = CustomColormap::new(vec![0, 10 * UNIT], vec![[0, 0, 0], [100, 200, 50]]).unwrap();
    let c = renderer(Scale::Equal, ColorMap::Custom(palette));
    assert_eq!(c.value_to_rgba(Some(5 * UNIT), &no_curve), [50, 100, 25, 255]);
}

#[test]
fn colours_of_a_grid() {
    let r = renderer(Scale::Linear { min: 0, max: 20 * UNIT }, ColorMap::RdYlBu);
    let mut values: Vec<Option<i64>> = vec![None; GRID_CELLS];
    values[0] = Some(0);
    values[1] = Some(10 * UNIT);
    values[GRID_CELLS - 1] = Some(20 * UNIT);
    let colors = r.values_to_colors(&values, &no_curve);
    assert_eq!(colors.len(), PIXEL_BYTES);
    assert_eq!(colors[0..4], [165, 0, 38, 255]);
    assert_eq!(colors[4..8], [255, 255, 191, 255]);
    assert_eq!(colors[8..12], [0, 0, 0, 0]);
    assert_eq!(colors[PIXEL_BYTES - 4..], [49, 54, 149, 255]);
}

#[test]
fn tile_of_the_world() {
    let r = renderer(Scale::Linear { min: 0, max: 88 * UNIT }, ColorMap::Grayscale);
    let tile = Tile { x: 0, y: 0, z: 0 };
    let img = r.render_tile(&tile, samples(), &no_curve).unwrap();
    assert_eq!((img.x, img.y, img.z), (0, 0, 0));
    assert_eq!(img.pixels.len(), PIXEL_BYTES);
    // the samples reach from 20000 km south to 20000 km north; the tile a
    // little further: its first and last rows and columns lie within half
    // a pixel of the samples, so every pixel is opaque
    assert!(img.pixels.chunks(4).all(|p| p[3] == 255));
    // the north-western pixel shows the north-western sample, 80, nearly
    let nw = img.pixels[0];
    assert_eq!(nw, ((80 * 255 / 88) % 255) as u8);
    // the south-eastern pixel shows the south-eastern sample, 8
    let se = img.pixels[PIXEL_BYTES - 4];
    assert_eq!(se, (8 * 255 / 88) as u8);
}

#[test]
fn rendering_needs_the_samples_of_the_window() {
    let r = renderer(Scale::Equal, ColorMap::Grayscale);
    let tile = Tile { x: 0, y: 0, z: 0 };
    assert!(matches!(
        r.render_tile(&tile, vec![Some(1); 80], &no_curve),
        Err(TileError::SourceAccess)
    ));
    assert!(matches!(
        r.render_n_level_tile(&tile, 1, vec![Some(1); 80], &no_curve),
        Err(TileError::SourceAccess)
    ));
}

#[test]
fn rendering_beside_the_source_is_out_of_bounds() {
    let lat: Vec<i64> = (0..4).map(|i| i * 100_000_000).collect();
    let lon: Vec<i64> = (0..5).map(|i| i * 100_000_000).collect();
    let patch = Dataset::new(lat, lon, None).unwrap();
    let r = Renderer::from_dataset(patch, Scale::Equal, ColorMap::Grayscale).unwrap();
    let sw = Tile { x: 0, y: 1, z: 1 };
    assert!(matches!(r.render_tile(&sw, vec![], &no_curve), Err(TileError::OutOfBounds)));
    assert!(matches!(
        r.render_n_level_tile(&sw, 2, vec![], &no_curve),
        Err(TileError::OutOfBounds)
    ));
}

#[test]
fn missing_samples_are_transparent() {
    let r = renderer(Scale::Linear { min: 0, max: 88 * UNIT }, ColorMap::RdYlBu);
    let tile = Tile { x: 0, y: 0, z: 0 };
    let img = r.render_tile(&tile, vec![Some(-9999); 81], &no_curve).unwrap();
    assert!(img.pixels.iter().all(|b| *b == 0));
}

#[test]
fn pyramid_has_the_sum_of_powers_of_four_tiles() {
    let r = renderer(Scale::Linear { min: 0, max: 88 * UNIT }, ColorMap::RdYlBu);
    let tile = Tile { x: 0, y: 0, z: 0 };
    let mut expected = 0;
    for depth in 0..3u8 {
        expected += 4usize.pow(depth as u32);
        let imgs = r.render_n_level_tile(&tile, depth, samples(), &no_curve).unwrap();
        assert_eq!(imgs.len(), expected);
        let mut seen = addresses(&imgs);
        seen.sort();
        seen.dedup();
        assert_eq!(seen.len(), expected);
        assert!(imgs.iter().all(|t| t.pixels.len() == PIXEL_BYTES));
    }
}

#[test]
fn pyramid_starts_with_the_tile_itself() {
    let r = renderer(Scale::Linear { min: 0, max: 88 * UNIT }, ColorMap::RdYlBu);
    let tile = Tile { x: 1, y: 0, z: 1 };
    let ne: Vec<Option<i64>> = (0..25).map(|k| Some(k * UNIT)).collect();
    let single = r.render_tile(&tile, ne.clone(), &no_curve).unwrap();
    let imgs = r.render_n_level_tile(&tile, 1, ne, &no_curve).unwrap();
    assert_eq!(imgs[0].pixels, single.pixels);
    assert_eq!((imgs[0].x, imgs[0].y, imgs[0].z), (single.x, single.y, single.z));
}

#[test]
fn pyramid_lists_the_tiles_level_by_level_below_each_tile() {
    let r = renderer(Scale::Linear { min: 0, max: 88 * UNIT }, ColorMap::RdYlBu);
    let tile = Tile { x: 1, y: 0, z: 1 };
    let ne: Vec<Option<i64>> = (0..25).map(|k| Some(k * UNIT)).collect();
    let imgs = r.render_n_level_tile(&tile, 2, ne, &no_curve).unwrap();
    assert_eq!(imgs.len(), 21);
    let seen = addresses(&imgs);
    assert_eq!(seen[0], (1, 0, 1));
    assert_eq!(seen[1], (2, 0, 2));
    assert_eq!(seen[2..6], [(4, 0, 3), (4, 1, 3), (5, 0, 3), (5, 1, 3)]);
    assert_eq!(seen[6], (2, 1, 2));
    assert_eq!(seen[11], (3, 0, 2));
    assert_eq!(seen[16], (3, 1, 2));
    assert_eq!(seen[17..21], [(6, 2, 3), (6, 3, 3), (7, 2, 3), (7, 3, 3)]);
}

#[test]
fn pyramid_of_a_window() {
    let axis: Vec<i64> = (-4..=4).map(|i| i * 5_000_000_000).collect();
    let tile = Tile { x: 0, y: 0, z: 0 };
    let data = TileData::new(axis.clone(), axis, samples(), tile.xy_bounds(), tile).unwrap();
    let r = renderer(Scale::Linear { min: 0, max: 88 * UNIT }, ColorMap::BrBG_r);
    let imgs = r.render_n_tiledata_zoom(&data, 1, &no_curve);
    assert_eq!(addresses(&imgs), vec![(0, 0, 0), (0, 0, 1), (0, 1, 1), (1, 0, 1), (1, 1, 1)]);
    let top = r.render_tiledata(&data, &no_curve);
    assert_eq!(imgs[0].pixels, top.pixels);
    let subs = data.sub_tiledata();
    for k in 0..4 {
        assert_eq!(imgs[k + 1].pixels, r.render_tiledata(&subs[k], &no_curve).pixels);
    }
}

#[test]
fn value_at_a_point_through_the_renderer() {
    let r = renderer(Scale::Equal, ColorMap::Grayscale);
    assert_eq!(r.value_at_coordinates(5, 5, Some(3)), Ok(Some(3)));
    assert_eq!(r.value_at_coordinates(5, 5, Some(-9999)), Ok(None));
    assert_eq!(
        r.value_at_coordinates(5, 30_000_000_000, Some(3)),
        Err(TileError::OutOfBounds)
    );
}
