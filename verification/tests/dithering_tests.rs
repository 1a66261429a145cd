use terminal_renderer::buffer::Buffer;
use terminal_renderer::renderer::apply_ansi_256_dithering;

/// An independent rendition of Burkes dithering towards the ANSI cube, on
/// nested vectors, to hold the library's result against.
fn reference_dither(img: &Vec<Vec<[u8; 3]>>) -> Vec<Vec<[u8; 3]>> {
    let h = img.len();
    let w = if h > 0 { img[0].len() } else { 0 };
    let mut out = img.clone();
    let mut errs = vec![vec![(0i32, 0i32, 0i32); w]; h];
    let err_of = |v: i32| -> i32 {
        if v < 95 {
            0
        } else {
            let a = (1 + (v - 95) / 40).min(5);
            v - ((a - 1) * 40 + 95)
        }
    };
    let pattern: [(i32, i32, i32); 7] = [(1, 0, 4), (2, 0, 8), (-2, 1, 16), (-1, 1, 8), (0, 1, 4), (1, 1, 8), (2, 1, 16)];
    for y in 0..h {
        for x in 0..w {
            let p = img[y][x];
            let e = errs[y][x];
            let r = p[0] as i32 + e.0;
            let g = p[1] as i32 + e.1;
            let b = p[2] as i32 + e.2;
            let (re, ge, be) = (err_of(r), err_of(g), err_of(b));
            for (dx, dy, f) in pattern {
                let px = x as i32 + dx;
                let py = y as i32 + dy;
                if px >= 0 && py >= 0 && (px as usize) < w && (py as usize) < h {
                    let c = &mut errs[py as usize][px as usize];
                    c.0 += re / f;
                    c.1 += ge / f;
                    c.2 += be / f;
                }
            }
            let ra = r.clamp(0, 255) as u8;
            let ga = g.clamp(0, 255) as u8;
            let ba = b.clamp(0, 255) as u8;
            out[y][x] = if p[0] == p[1] && p[1] == p[2] {
                let u = ((ra as u16 + ga as u16 + ba as u16) / 3) as u8;
                [u, u, u]
            } else {
                [ra, ga, ba]
            };
        }
    }
    out
}

fn image(w: usize, h: usize, seed: u32) -> Vec<Vec<[u8; 3]>> {
    let mut state = seed;
    let mut next = || {
        state = state.wrapping_mul(1664525).wrapping_add(1013904223);
        (state >> 24) as u8
    };
    (0..h)
        .map(|_| {
            (0..w)
                .map(|_| {
                    let r = next();
                    if r % 4 == 0 {
                        [r, r, r]
                    } else {
                        [r, next(), next()]
                    }
                })
                .collect()
        })
        .collect()
}

fn dither(img: &Vec<Vec<[u8; 3]>>) -> Vec<Vec<[u8; 3]>> {
    let h = img.len();
    let w = if h > 0 { img[0].len() } else { 0 };
    let mut b = Buffer::new([0u8; 3], w, h);
    for y in 0..h {
        for x in 0..w {
            b.set(y, x, img[y][x]);
        }
    }
    apply_ansi_256_dithering(&mut b);
    assert_eq!(b.width(), w);
    assert_eq!(b.height(), h);
    (0..h).map(|y| b.row(y).to_vec()).collect()
}

#[test]
fn dithering_matches_reference() {
    for (w, h, seed) in [(1, 1, 1), (3, 2, 7), (8, 5, 42), (17, 9, 3), (40, 23, 99)] {
        let img = image(w, h, seed);
        assert_eq!(dither(&img), reference_dither(&img), "{}x{} seed {}", w, h, seed);
    }
}

#[test]
fn dithering_first_pixel_unchanged_and_never_darkens() {
    let img = image(12, 7, 5);
    let out = dither(&img);
    assert_eq!(out[0][0], img[0][0]);
    for y in 0..7 {
        for x in 0..12 {
            for c in 0..3 {
                assert!(out[y][x][c] >= img[y][x][c]);
                assert!(out[y][x][c] as u16 <= img[y][x][c] as u16 + 34);
            }
            let p = img[y][x];
            if p[0] == p[1] && p[1] == p[2] {
                let q = out[y][x];
                assert!(q[0] == q[1] && q[1] == q[2]);
            }
        }
    }
}

#[test]
fn dithering_exact_small_case() {
    // A single row: the first pixel's error (100 - 95 = 5 per channel) is
    // diffused; 5 / 4 = 1 reaches the second pixel, 5 / 8 = 0 the third. The
    // second pixel (101) makes an error of 6, of which 6 / 4 = 1 reaches the
    // third.
    let img = vec![vec![[100, 100, 100], [100, 100, 100], [100, 10, 20]]];
    let out = dither(&img);
    assert_eq!(out, vec![vec![[100, 100, 100], [101, 101, 101], [101, 11, 21]]]);
}

#[test]
fn dithering_dark_image_is_unchanged() {
    let img = vec![vec![[10, 20, 94]; 5]; 4];
    assert_eq!(dither(&img), img);
}

#[test]
fn dithering_empty_buffers() {
    let empty: Vec<Vec<[u8; 3]>> = Vec::new();
    assert_eq!(dither(&empty), empty);
}
