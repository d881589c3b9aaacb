use snap::image::{Image, PPMFormat};
use snap::matrix::Matrix;
use snap::pixel::PixelRGB;

fn gray(v: usize) -> PixelRGB {
    PixelRGB { r: v, g: v, b: v }
}

fn uniform(width: usize, height: usize, v: usize) -> Image {
    let mut image = Image::new(width, height, 255, PPMFormat::P3);
    image.fill(gray(v));
    image
}

fn spotted() -> Image {
    let mut image = uniform(5, 5, 10);
    image.set_pixel(2, 3, gray(255));
    image
}

fn cells_of(m: &Matrix<isize>) -> Vec<isize> {
    let mut out = Vec::new();
    for row in 0..m.height() {
        for col in 0..m.width() {
            out.push(*m.at(row, col));
        }
    }
    out
}

fn pixels_of(image: &Image) -> Vec<Vec<PixelRGB>> {
    let mut rows = Vec::new();
    for row in 0..image.height() {
        let mut line = Vec::new();
        for col in 0..image.width() {
            line.push(image.get_pixel(row, col).unwrap());
        }
        rows.push(line);
    }
    rows
}

#[test]
fn squared_difference_adds_the_three_channels() {
    let a = PixelRGB { r: 10, g: 20, b: 30 };
    let b = PixelRGB { r: 13, g: 16, b: 30 };
    assert_eq!(a.squared_difference(&b), 9 + 16);
    assert_eq!(b.squared_difference(&a), 25);
    assert_eq!(a.squared_difference(&a), 0);
}

#[test]
fn energy_of_a_uniform_image() {
    let image = uniform(4, 4, 77);
    let energy = image.energy();
    assert_eq!(cells_of(&energy), vec![1, 1, 1, 1, 1, 0, 0, 1, 1, 0, 0, 1, 1, 1, 1, 1]);
}

#[test]
fn energy_of_a_small_image_is_all_border() {
    for (w, h) in [(1, 1), (2, 5), (5, 2), (2, 2)] {
        let mut image = uniform(w, h, 0);
        image.set_pixel(0, 0, gray(200));
        let energy = image.energy();
        assert_eq!(cells_of(&energy), vec![1; w * h]);
    }
    let empty = Image::new(0, 4, 255, PPMFormat::P3);
    let energy = empty.energy();
    assert_eq!((energy.width(), energy.height()), (0, 4));
}

#[test]
fn energy_is_the_dual_gradient() {
    let mut image = uniform(3, 3, 0);
    image.set_pixel(0, 1, PixelRGB { r: 3, g: 0, b: 0 });
    image.set_pixel(2, 1, PixelRGB { r: 1, g: 2, b: 0 });
    image.set_pixel(1, 0, PixelRGB { r: 0, g: 0, b: 5 });
    image.set_pixel(1, 2, PixelRGB { r: 0, g: 1, b: 1 });
    let energy = image.energy();
    // north/south: 2^2 + 2^2 + 0 = 8; east/west: 0 + 1 + 4^2 = 17
    assert_eq!(*energy.at(1, 1), 25);
    assert_eq!(cells_of(&energy), vec![25, 25, 25, 25, 25, 25, 25, 25, 25]);
}

#[test]
fn energy_and_cost_of_the_spotted_image() {
    let image = spotted();
    let e = 180075;
    let energy = image.energy();
    assert_eq!(
        cells_of(&energy),
        vec![
            e, e, e, e, e, //
            e, 0, 0, e, e, //
            e, 0, e, 0, e, //
            e, 0, 0, e, e, //
            e, e, e, e, e,
        ]
    );
    let cost = image.vertical_cost();
    assert_eq!(
        cells_of(&cost),
        vec![
            e, e, e, e, e, //
            2 * e, e, e, 2 * e, 2 * e, //
            2 * e, e, 2 * e, e, 3 * e, //
            2 * e, e, e, 2 * e, 2 * e, //
            2 * e, 2 * e, 2 * e, 2 * e, 3 * e,
        ]
    );
}

#[test]
fn seam_has_one_column_per_row() {
    let image = spotted();
    let seam = image.minimal_vertical_seam();
    assert_eq!(seam.len(), image.height());
    for col in &seam {
        assert!(*col < image.width());
    }
    for pair in seam.windows(2) {
        assert!(pair[0].abs_diff(pair[1]) <= 1);
    }
    assert_eq!(seam, vec![0, 1, 1, 1, 0]);
}

#[test]
fn seam_of_a_uniform_image_takes_the_leftmost_cheapest() {
    // costs: 1 1 1 1 / 2 1 1 2 / 2 2 2 2
    let image = uniform(4, 3, 9);
    assert_eq!(image.minimal_vertical_seam(), vec![0, 1, 0]);
    let thin = uniform(2, 3, 9);
    assert_eq!(thin.minimal_vertical_seam(), vec![0, 0, 0]);
    let none = Image::new(3, 0, 255, PPMFormat::P3);
    assert_eq!(none.minimal_vertical_seam(), Vec::<usize>::new());
}

#[test]
fn removing_a_seam_takes_one_pixel_from_every_row() {
    let mut image = uniform(4, 3, 0);
    for row in 0..3 {
        for col in 0..4 {
            image.set_pixel(row, col, PixelRGB { r: row * 10 + col, g: col, b: row });
        }
    }
    let before = pixels_of(&image);
    let seam = image.minimal_vertical_seam();
    image.remove_vertical_seam();
    assert_eq!(image.width(), 3);
    assert_eq!(image.height(), 3);
    let after = pixels_of(&image);
    for row in 0..3 {
        let mut expected = before[row].clone();
        expected.remove(seam[row]);
        assert_eq!(after[row], expected);
    }
}

#[test]
fn carving_keeps_the_bright_pixel() {
    let mut image = spotted();
    image.seam_carve_width(4);
    assert_eq!(image.width(), 4);
    assert_eq!(image.height(), 5);
    assert_eq!(image.get_pixel(2, 2), Some(gray(255)));
    let bright: usize = pixels_of(&image).iter().flatten().filter(|p| **p == gray(255)).count();
    assert_eq!(bright, 1);
}

#[test]
fn carving_to_the_same_width_twice_is_idle() {
    let mut image = spotted();
    image.seam_carve_width(3);
    let once = pixels_of(&image);
    image.seam_carve_width(3);
    assert_eq!(pixels_of(&image), once);
    assert_eq!(image.width(), 3);
}

#[test]
fn carving_to_a_larger_width_is_idle() {
    let mut image = spotted();
    let before = pixels_of(&image);
    image.seam_carve_width(9);
    assert_eq!(pixels_of(&image), before);
    image.seam_carve_height(9);
    assert_eq!(pixels_of(&image), before);
}

#[test]
fn carving_the_height_takes_rows_away() {
    let mut image = spotted();
    image.seam_carve_height(3);
    assert_eq!((image.width(), image.height()), (5, 3));
    let mut turned = spotted();
    turned.rotate_left();
    turned.seam_carve_width(3);
    turned.rotate_right();
    assert_eq!(pixels_of(&image), pixels_of(&turned));
}

#[test]
fn carving_both_axes_goes_width_first() {
    let mut both = spotted();
    both.seam_carve(4, 3);
    let mut steps = spotted();
    steps.seam_carve_width(4);
    steps.seam_carve_height(3);
    assert_eq!((both.width(), both.height()), (4, 3));
    assert_eq!(pixels_of(&both), pixels_of(&steps));
}

#[test]
fn carving_down_to_nothing() {
    let mut image = uniform(3, 2, 5);
    image.seam_carve_width(0);
    assert_eq!((image.width(), image.height()), (0, 2));
}

#[test]
fn rotate_left_then_right_restores() {
    for (w, h) in [(3, 2), (1, 4), (0, 3), (3, 0), (0, 0)] {
        let mut image = Image::new(w, h, 255, PPMFormat::P6);
        for row in 0..h {
            for col in 0..w {
                image.set_pixel(row, col, PixelRGB { r: row, g: col, b: row * w + col });
            }
        }
        let before = pixels_of(&image);
        image.rotate_left();
        image.rotate_right();
        assert_eq!((image.width(), image.height()), (w, h));
        assert_eq!(pixels_of(&image), before);
    }
}

#[test]
fn rotate_left_moves_the_right_column_to_the_top() {
    let mut image = Image::new(3, 2, 255, PPMFormat::P6);
    for row in 0..2 {
        for col in 0..3 {
            image.set_pixel(row, col, gray(row * 3 + col));
        }
    }
    image.rotate_left();
    assert_eq!((image.width(), image.height()), (2, 3));
    let got: Vec<usize> = pixels_of(&image).iter().flatten().map(|p| p.r).collect();
    assert_eq!(got, vec![2, 5, 1, 4, 0, 3]);
    image.rotate_right();
    image.rotate_right();
    let got: Vec<usize> = pixels_of(&image).iter().flatten().map(|p| p.r).collect();
    assert_eq!(got, vec![3, 0, 4, 1, 5, 2]);
}

#[test]
fn fits_tells_when_energies_overflow() {
    let mut image = uniform(3, 3, 255);
    assert!(image.is_carvable());
    assert!(image.fits(1));
    assert!(image.fits(0));
    image.set_pixel(1, 1, gray(usize::MAX));
    assert!(!image.fits(1));
    assert!(!image.is_carvable());
    assert!(image.fits(0));
    let mut edge = uniform(1, 1, 0);
    // 6 * s * s <= isize::MAX holds up to s = 1_239_850_262 on 64 bits
    if usize::BITS == 64 {
        edge.set_pixel(0, 0, gray(1_239_850_262));
        assert!(edge.fits(1));
        edge.set_pixel(0, 0, gray(1_239_850_263));
        assert!(!edge.fits(1));
    }
}

fn all_seams(width: usize, height: usize) -> Vec<Vec<usize>> {
    let mut seams: Vec<Vec<usize>> = (0..width).map(|c| vec![c]).collect();
    for _ in 1..height {
        let mut longer = Vec::new();
        for seam in &seams {
            let last = *seam.last().unwrap();
            for next in last.saturating_sub(1)..(last + 2).min(width) {
                let mut grown = seam.clone();
                grown.push(next);
                longer.push(grown);
            }
        }
        seams = longer;
    }
    seams
}

#[test]
fn no_seam_is_cheaper_than_the_minimal_seam() {
    let mut image = uniform(5, 4, 0);
    let mut seed: usize = 12345;
    for row in 0..4 {
        for col in 0..5 {
            seed = seed.wrapping_mul(1103515245).wrapping_add(12345) % 2147483648;
            let r = seed % 256;
            seed = seed.wrapping_mul(1103515245).wrapping_add(12345) % 2147483648;
            let g = seed % 256;
            seed = seed.wrapping_mul(1103515245).wrapping_add(12345) % 2147483648;
            let b = seed % 256;
            image.set_pixel(row, col, PixelRGB { r, g, b });
        }
    }
    let energy = image.energy();
    let total = |seam: &Vec<usize>| -> isize {
        seam.iter().enumerate().map(|(row, col)| *energy.at(row, *col)).sum()
    };
    let chosen = image.minimal_vertical_seam();
    let least = all_seams(5, 4).iter().map(|s| total(s)).min().unwrap();
    assert_eq!(total(&chosen), least);
    let cost = image.vertical_cost();
    assert_eq!(*cost.at(3, chosen[3]), least);
    let first = all_seams(5, 4).into_iter().filter(|s| total(s) == least).count();
    assert!(first >= 1);
}

#[test]
fn samples_too_large_for_the_sums_are_cut_down_not_refused() {
    let most = isize::MAX;
    let mut image = uniform(4, 3, 0);
    image.set_pixel(0, 1, gray(usize::MAX));
    image.set_pixel(1, 2, gray(usize::MAX));
    assert!(!image.is_carvable());
    let energy = image.energy();
    // the gradient at (1, 1) is more than an isize holds, the one at (1, 2)
    // is 0, and the border takes the largest
    assert_eq!(
        cells_of(&energy),
        vec![most, most, most, most, most, most, 0, most, most, most, most, most]
    );
    let cost = image.vertical_cost();
    assert_eq!(
        cells_of(&cost),
        vec![most, most, most, most, most, most, most, most, most, most, most, most]
    );
    let a = PixelRGB { r: usize::MAX, g: 0, b: 0 };
    let b = PixelRGB { r: 0, g: 0, b: 0 };
    assert_eq!(a.capped_difference(&b), most);
    assert_eq!(b.capped_difference(&a), most);
    assert_eq!(a.capped_difference(&a), 0);
    assert_eq!(gray(3).capped_difference(&gray(1)), 12);
    let before = pixels_of(&image);
    let seam = image.minimal_vertical_seam();
    assert_eq!(seam, vec![0, 0, 0]);
    image.remove_vertical_seam();
    assert_eq!((image.width(), image.height()), (3, 3));
    let after = pixels_of(&image);
    for row in 0..3 {
        let mut expected = before[row].clone();
        expected.remove(seam[row]);
        assert_eq!(after[row], expected);
    }
    image.seam_carve(1, 2);
    assert_eq!((image.width(), image.height()), (1, 2));
}
