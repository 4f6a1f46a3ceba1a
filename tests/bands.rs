use raytracer::bands::{assemble_bands, band_rows, Band, BandError};

fn band_of(start: u32, end: u32, width: u32, shade: u8) -> Band {
    let mut pixels = Vec::new();
    for y in start..end {
        for x in 0..width {
            pixels.push(shade);
            pixels.push(y as u8);
            pixels.push(x as u8);
        }
    }
    Band { start, end, pixels }
}

#[test]
fn band_rows_split_height_evenly() {
    assert_eq!(band_rows(225, 32, 0), (0, 7));
    assert_eq!(band_rows(225, 32, 1), (7, 14));
    assert_eq!(band_rows(225, 32, 31), (217, 225));
    assert_eq!(band_rows(10, 5, 4), (8, 10));
    assert_eq!(band_rows(3, 4, 2), (0, 0));
    assert_eq!(band_rows(3, 4, 3), (0, 3));
    assert_eq!(band_rows(10, 3, 2), (6, 10));
}

#[test]
fn bands_assemble_in_any_order() {
    let (w, h) = (4u32, 6u32);
    let bands = vec![band_of(3, 6, w, 30), band_of(0, 3, w, 10)];
    let raw = assemble_bands(w, h, &bands).unwrap();
    assert_eq!(raw.len(), (3 * w * h) as usize);
    for y in 0..h {
        for x in 0..w {
            let n = ((y * w + x) * 3) as usize;
            let shade = if y < 3 { 10 } else { 30 };
            assert_eq!(&raw[n..n + 3], &[shade, y as u8, x as u8]);
        }
    }
    let reversed: Vec<Band> = bands.iter().rev().cloned().collect();
    assert_eq!(assemble_bands(w, h, &reversed).unwrap(), raw);
}

#[test]
fn uncovered_rows_stay_black() {
    let (w, h) = (3u32, 5u32);
    let raw = assemble_bands(w, h, &vec![band_of(1, 2, w, 200)]).unwrap();
    for y in 0..h {
        for x in 0..w {
            let n = ((y * w + x) * 3) as usize;
            if y == 1 {
                assert_eq!(&raw[n..n + 3], &[200, 1, x as u8]);
            } else {
                assert_eq!(&raw[n..n + 3], &[0, 0, 0]);
            }
        }
    }
}

#[test]
fn later_band_wins_on_shared_rows() {
    let w = 2u32;
    let raw = assemble_bands(w, 2, &vec![band_of(0, 2, w, 1), band_of(1, 2, w, 9)]).unwrap();
    assert_eq!(raw[0], 1);
    assert_eq!(raw[(3 * w) as usize], 9);
}

#[test]
fn no_bands_gives_black_image() {
    let raw = assemble_bands(2, 2, &Vec::new()).unwrap();
    assert_eq!(raw, vec![0u8; 12]);
}

#[test]
fn band_outside_image_is_malformed() {
    let w = 2u32;
    assert_eq!(
        assemble_bands(w, 3, &vec![band_of(2, 4, w, 1)]),
        Err(BandError::MalformedBand)
    );
    let backwards = Band { start: 2, end: 1, pixels: Vec::new() };
    assert_eq!(assemble_bands(w, 3, &vec![backwards]), Err(BandError::MalformedBand));
}

#[test]
fn short_band_buffer_is_malformed() {
    let mut b = band_of(0, 2, 2, 1);
    b.pixels.pop();
    assert_eq!(assemble_bands(2, 2, &vec![b]), Err(BandError::MalformedBand));
}

#[test]
fn oversized_image_is_refused() {
    assert_eq!(
        assemble_bands(u32::MAX, u32::MAX, &Vec::new()),
        Err(BandError::TooLarge)
    );
}

#[test]
fn planned_bands_cover_every_row() {
    let (w, h, n) = (2u32, 7u32, 3u32);
    let mut bands = Vec::new();
    for k in (0..n).rev() {
        let (start, end) = band_rows(h, n, k);
        bands.push(band_of(start, end, w, 5 + k as u8));
    }
    let raw = assemble_bands(w, h, &bands).unwrap();
    for y in 0..h {
        let n0 = (y * w * 3) as usize;
        let expected = if y < 4 { 5 + (y / 2) as u8 } else { 7 };
        assert_eq!(raw[n0], expected);
    }
}

#[test]
fn planned_bands_of_the_default_render_reach_the_bottom() {
    let mut next = 0u32;
    for k in 0..32u32 {
        let (start, end) = band_rows(225, 32, k);
        assert_eq!(start, next);
        next = end;
    }
    assert_eq!(next, 225);
}
