use gdep073e01::dither::{Bayer4x4, DitherStrategy, FloydSteinberg, Halftone};
use gdep073e01::palette::Spectra6;
use gdep073e01::palette::Spectra6::{Black, Blue, Green, Red, White, Yellow};

#[test]
fn bayer_deterministic() {
    let mut b = Bayer4x4;
    let a = b.map(10, 10, [120, 130, 140]);
    let a2 = b.map(10, 10, [120, 130, 140]);
    assert_eq!(a, a2);
}

#[test]
fn halftone_levels() {
    let mut h = Halftone::new(2);
    let c1 = h.map(0, 0, [10, 10, 10]);
    let c2 = h.map(0, 0, [240, 240, 240]);
    assert!(matches!(c1, Spectra6::Black));
    assert!(matches!(c2, Spectra6::White));
}

#[test]
fn bayer_exact_colours() {
    let mut b = Bayer4x4;
    assert_eq!(b.map(10, 10, [120, 130, 140]), Spectra6::Blue);
    assert_eq!(b.map(0, 0, [120, 130, 140]), Spectra6::Blue);
    assert_eq!(b.map(1, 0, [120, 130, 140]), Spectra6::Green);
    assert_eq!(b.map(3, 3, [250, 250, 250]), Spectra6::White);
    assert_eq!(b.map(0, 0, [8, 8, 8]), Spectra6::Black);
    // The threshold 12 at (0, 1) lifts mid gray to white, the threshold
    // 1 at (2, 2) lowers it to black.
    assert_eq!(b.map(0, 1, [128, 128, 128]), Spectra6::White);
    assert_eq!(b.map(2, 2, [128, 128, 128]), Spectra6::Black);
    assert_eq!(b.map(0, 3, [124, 124, 124]), Spectra6::White);
    assert_eq!(b.map(2, 2, [124, 124, 124]), Spectra6::Black);
}

#[test]
fn bayer_repeats_every_four_pixels() {
    let mut b = Bayer4x4;
    for y in 0..8u32 {
        for x in 0..8u32 {
            let here = b.map(x, y, [128, 128, 128]);
            assert_eq!(b.map(x + 4, y, [128, 128, 128]), here);
            assert_eq!(b.map(x, y + 4, [128, 128, 128]), here);
            assert_eq!(b.map(x + 4000, y + 400, [128, 128, 128]), here);
            assert_eq!(b.map(x, y, [128, 128, 128]), here);
        }
    }
    assert_eq!(b.map(u32::MAX, u32::MAX, [128, 128, 128]), b.map(3, 3, [128, 128, 128]));
    assert!(b.can_map(u32::MAX, 0));
}

#[test]
fn halftone_level_cutoffs() {
    assert_eq!(Halftone::level_from_rgb([0, 0, 0]), 0);
    assert_eq!(Halftone::level_from_rgb([31, 31, 31]), 0);
    assert_eq!(Halftone::level_from_rgb([32, 32, 32]), 1);
    assert_eq!(Halftone::level_from_rgb([95, 95, 95]), 1);
    assert_eq!(Halftone::level_from_rgb([96, 96, 96]), 2);
    assert_eq!(Halftone::level_from_rgb([159, 159, 159]), 2);
    assert_eq!(Halftone::level_from_rgb([160, 160, 160]), 3);
    assert_eq!(Halftone::level_from_rgb([223, 223, 223]), 3);
    assert_eq!(Halftone::level_from_rgb([224, 224, 224]), 4);
    assert_eq!(Halftone::level_from_rgb([255, 255, 255]), 4);
}

#[test]
fn halftone_luminance_weights() {
    // (3 * 255) / 10 = 76, (6 * 255) / 10 = 153, 255 / 10 = 25
    assert_eq!(Halftone::level_from_rgb([255, 0, 0]), 1);
    assert_eq!(Halftone::level_from_rgb([0, 255, 0]), 2);
    assert_eq!(Halftone::level_from_rgb([0, 0, 255]), 0);
    // (93 + 192 + 29) / 10 = 31
    assert_eq!(Halftone::level_from_rgb([31, 32, 29]), 0);
}

#[test]
fn halftone_tile_is_clamped() {
    assert_eq!(Halftone::new(0).tile, 2);
    assert_eq!(Halftone::new(1).tile, 2);
    assert_eq!(Halftone::new(2).tile, 2);
    assert_eq!(Halftone::new(3).tile, 3);
    assert_eq!(Halftone::new(4).tile, 3);
    assert_eq!(Halftone::new(255).tile, 3);
}

fn halftone_tile(tile: u8, rgb: [u8; 3]) -> Vec<Vec<Spectra6>> {
    let mut h = Halftone::new(tile);
    let n = h.tile as u32;
    (0..n).map(|y| (0..n).map(|x| h.map(x, y, rgb)).collect()).collect()
}

#[test]
fn halftone_two_by_two_patterns() {
    let w = Spectra6::White;
    let b = Spectra6::Black;
    assert_eq!(halftone_tile(2, [10, 10, 10]), vec![vec![b, b], vec![b, b]]);
    assert_eq!(halftone_tile(2, [40, 40, 40]), vec![vec![w, b], vec![b, b]]);
    assert_eq!(halftone_tile(2, [100, 100, 100]), vec![vec![w, b], vec![b, w]]);
    assert_eq!(halftone_tile(2, [170, 170, 170]), vec![vec![w, w], vec![b, w]]);
    assert_eq!(halftone_tile(2, [240, 240, 240]), vec![vec![w, w], vec![w, w]]);
}

#[test]
fn halftone_three_by_three_patterns() {
    let w = Spectra6::White;
    let b = Spectra6::Black;
    assert_eq!(
        halftone_tile(3, [10, 10, 10]),
        vec![vec![b, b, b], vec![b, b, b], vec![b, b, b]]
    );
    assert_eq!(
        halftone_tile(3, [40, 40, 40]),
        vec![vec![b, b, b], vec![b, w, b], vec![b, b, b]]
    );
    assert_eq!(
        halftone_tile(3, [100, 100, 100]),
        vec![vec![b, b, w], vec![b, w, b], vec![w, b, b]]
    );
    assert_eq!(
        halftone_tile(3, [170, 170, 170]),
        vec![vec![b, w, w], vec![w, w, w], vec![w, w, b]]
    );
    assert_eq!(
        halftone_tile(3, [240, 240, 240]),
        vec![vec![w, w, w], vec![w, w, w], vec![w, w, w]]
    );
}

#[test]
fn halftone_repeats_over_the_canvas() {
    let mut h = Halftone::new(3);
    for y in 0..9u32 {
        for x in 0..9u32 {
            let here = h.map(x, y, [100, 100, 100]);
            assert_eq!(h.map(x + 3, y + 6, [100, 100, 100]), here);
        }
    }
    assert!(h.can_map(12345, 678));
}

#[test]
fn halftone_with_a_tile_set_by_hand() {
    // The field is public: a tile other than 2 takes the ranks of the 3x3
    // pattern, and rank 4 in the cells beyond it.
    let mut h = Halftone { tile: 5 };
    assert_eq!(h.map(4, 4, [240, 240, 240]), Spectra6::Black);
    assert_eq!(h.map(3, 1, [240, 240, 240]), Spectra6::Black);
    assert_eq!(h.map(6, 6, [40, 40, 40]), Spectra6::White);
    let mut one = Halftone { tile: 1 };
    assert_eq!(one.map(7, 9, [240, 240, 240]), Spectra6::White);
    assert_eq!(one.map(7, 9, [100, 100, 100]), Spectra6::Black);
}

fn reference(c: Spectra6) -> [u32; 3] {
    match c {
        Spectra6::White => [255, 255, 255],
        Spectra6::Black => [0, 0, 0],
        Spectra6::Yellow => [255, 255, 0],
        Spectra6::Red => [255, 0, 0],
        Spectra6::Green => [0, 255, 0],
        Spectra6::Blue => [0, 0, 255],
    }
}

#[test]
fn floyd_steinberg_orange_on_two_columns() {
    let run = || {
        let mut fs = FloydSteinberg::new(2);
        let mut out = Vec::new();
        for y in 0..64u32 {
            for x in 0..2u32 {
                out.push(fs.map(x, y, [128, 64, 0]));
            }
        }
        out
    };
    let out = run();
    assert_eq!(out, run());
    for (i, pair) in out.chunks(2).enumerate() {
        if i % 2 == 0 {
            assert_eq!(pair, [Spectra6::Red, Spectra6::Black]);
        } else {
            assert_eq!(pair, [Spectra6::Black, Spectra6::Yellow]);
        }
    }
    let mut sum = [0u32; 3];
    for c in &out {
        let r = reference(*c);
        for k in 0..3 {
            sum[k] += r[k];
        }
    }
    // The mean of the output is (127.5, 63.75, 0): the input, (128, 64, 0),
    // to within one unit.
    assert_eq!(sum, [16320, 8160, 0]);
}

#[test]
fn floyd_steinberg_gradient() {
    let mut fs = FloydSteinberg::new(4);
    let mut out = Vec::new();
    for y in 0..3u32 {
        for x in 0..4u32 {
            let rgb = [(40 * x + 30 * y + 10) as u8, (200 - 30 * x) as u8, (60 * y + 5 * x) as u8];
            out.push(fs.map(x, y, rgb));
        }
    }
    assert_eq!(
        out,
        vec![Green, Green, Black, Yellow, Green, Red, Green, Red, Green, White, Blue, White]
    );
}

#[test]
fn floyd_steinberg_first_pixel_is_the_nearest() {
    let mut fs = FloydSteinberg::new(3);
    assert_eq!(fs.map(0, 0, [200, 30, 30]), Spectra6::Red);
    assert_eq!(fs.map(1, 0, [200, 30, 30]), Spectra6::Red);
    assert_eq!(fs.map(2, 0, [200, 30, 30]), Spectra6::Red);
    // The error of the first row reaches the second: the middle pixel,
    // with -80 accumulated for red, falls to black.
    assert_eq!(fs.map(0, 1, [200, 30, 30]), Spectra6::Red);
    assert_eq!(fs.map(1, 1, [200, 30, 30]), Spectra6::Black);
    assert_eq!(fs.map(2, 1, [200, 30, 30]), Spectra6::Red);
}

#[test]
fn floyd_steinberg_single_column() {
    let mut fs = FloydSteinberg::new(1);
    assert!(fs.can_map(0, 5));
    assert!(!fs.can_map(1, 5));
    let out: Vec<Spectra6> = (0..8u32).map(|y| fs.map(0, y, [100, 100, 100])).collect();
    assert_eq!(out, vec![Black, White, Black, Black, White, Black, Black, White]);
}

#[test]
fn floyd_steinberg_edges_of_a_wide_canvas() {
    let mut fs = FloydSteinberg::new(300);
    assert!(fs.can_map(299, 0));
    assert!(!fs.can_map(300, 0));
    let mut rows = Vec::new();
    for y in 0..2u32 {
        let row: Vec<Spectra6> = (0..300u32).map(|x| fs.map(x, y, [128, 64, 0])).collect();
        rows.push(row);
    }
    let count = |row: &Vec<Spectra6>, c: Spectra6| row.iter().filter(|v| **v == c).count();
    assert_eq!(count(&rows[0], Spectra6::Red), 150);
    assert_eq!(count(&rows[0], Spectra6::Black), 150);
    assert_eq!(count(&rows[1], Spectra6::Black), 150);
    assert_eq!(count(&rows[1], Spectra6::Yellow), 150);
}

#[test]
fn floyd_steinberg_mean_stays_near_the_input() {
    let mut fs = FloydSteinberg::new(50);
    let mut sum = [0u32; 3];
    for y in 0..200u32 {
        for x in 0..50u32 {
            let r = reference(fs.map(x, y, [128, 64, 0]));
            for k in 0..3 {
                sum[k] += r[k];
            }
        }
    }
    // 10000 pixels: the means are 127.5, 62.6535 and 0.
    assert_eq!(sum, [1275000, 626535, 0]);
}

#[test]
fn floyd_steinberg_column_reset_starts_a_row() {
    let mut by_row = FloydSteinberg::new(2);
    let mut by_reset = FloydSteinberg::new(2);
    for y in 0..8u32 {
        for x in 0..2u32 {
            let expected = by_row.map(x, y, [128, 64, 0]);
            assert_eq!(by_reset.map(x, 0, [128, 64, 0]), expected);
        }
    }
}

#[test]
fn floyd_steinberg_start_line() {
    let mut fs = FloydSteinberg::new(2);
    assert_eq!(fs.map(0, 0, [128, 64, 0]), Red);
    assert_eq!(fs.map(1, 0, [128, 64, 0]), Black);
    fs.start_line(1);
    assert_eq!(fs.map(0, 1, [128, 64, 0]), Black);
    assert_eq!(fs.map(1, 1, [128, 64, 0]), Yellow);

    // A call for the current row changes nothing.
    let mut same = FloydSteinberg::new(2);
    assert_eq!(same.map(0, 0, [128, 64, 0]), Red);
    same.start_line(0);
    assert_eq!(same.map(1, 0, [128, 64, 0]), Black);
}

#[test]
fn floyd_steinberg_without_columns() {
    let mut fs = FloydSteinberg::new(0);
    assert!(!fs.can_map(0, 0));
    fs.start_line(3);
}

#[test]
fn floyd_steinberg_accumulated_error_saturates() {
    // The same pixel of the last column over and over hands 31 units a time
    // to the pixel below it: after 1100 times the sum would be 34100, and it
    // stays at 32767. A sum that wrapped would be negative and turn the pixel
    // below black.
    let mut fs = FloydSteinberg::new(2);
    for _ in 0..1100 {
        assert_eq!(fs.map(1, 0, [100, 100, 100]), Black);
    }
    assert_eq!(fs.map(0, 1, [100, 100, 100]), White);
    assert_eq!(fs.map(1, 1, [100, 100, 100]), White);

    // And downwards, at -32768.
    let mut fs = FloydSteinberg::new(2);
    for _ in 0..1100 {
        assert_eq!(fs.map(1, 0, [150, 150, 150]), White);
    }
    assert_eq!(fs.map(0, 1, [150, 150, 150]), Black);
    assert_eq!(fs.map(1, 1, [150, 150, 150]), Black);
}

#[test]
fn bayer_keeps_the_palette() {
    let mut b = Bayer4x4;
    let table = [
        (Spectra6::White, [255u8, 255, 255]),
        (Spectra6::Black, [0, 0, 0]),
        (Spectra6::Yellow, [255, 255, 0]),
        (Spectra6::Red, [255, 0, 0]),
        (Spectra6::Green, [0, 255, 0]),
        (Spectra6::Blue, [0, 0, 255]),
    ];
    for (c, rgb) in table {
        for y in 0..4u32 {
            for x in 0..4u32 {
                assert_eq!(b.map(x, y, rgb), c);
            }
        }
    }
}

#[test]
fn floyd_steinberg_keeps_a_frame_of_palette_colours() {
    let table = [
        (Spectra6::White, [255u8, 255, 255]),
        (Spectra6::Black, [0, 0, 0]),
        (Spectra6::Yellow, [255, 255, 0]),
        (Spectra6::Red, [255, 0, 0]),
        (Spectra6::Green, [0, 255, 0]),
        (Spectra6::Blue, [0, 0, 255]),
    ];
    let mut fs = FloydSteinberg::new(7);
    for y in 0..12u32 {
        for x in 0..7u32 {
            let (c, rgb) = table[((3 * x + 5 * y) % 6) as usize];
            assert_eq!(fs.map(x, y, rgb), c);
        }
    }
}
