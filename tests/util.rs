use quadtree_compress::raster::Raster;
use quadtree_compress::util::{avg_pixels, calc_variance, Rgb};

#[test]
fn average_truncates_per_channel() {
    let px = vec![Rgb { r: 10, g: 0, b: 255 }, Rgb { r: 11, g: 1, b: 254 }, Rgb { r: 0, g: 0, b: 0 }];
    assert_eq!(avg_pixels(&px), Rgb { r: 7, g: 0, b: 169 });
}

#[test]
fn average_of_nothing_is_zero() {
    assert_eq!(avg_pixels(&Vec::new()), Rgb { r: 0, g: 0, b: 0 });
}

#[test]
fn variance_is_mean_of_third_differences() {
    let px = vec![Rgb { r: 10, g: 20, b: 30 }, Rgb { r: 0, g: 0, b: 0 }];
    // first pixel: 10/3 + 20/3 + 30/3 = 3 + 6 + 10 = 19; second: 0
    assert_eq!(calc_variance(&px, Rgb { r: 0, g: 0, b: 0 }), 9);
    assert_eq!(calc_variance(&px, Rgb { r: 10, g: 20, b: 30 }), 9);
}

#[test]
fn variance_of_matching_pixels_is_zero() {
    let c = Rgb { r: 5, g: 6, b: 7 };
    assert_eq!(calc_variance(&vec![c; 10], c), 0);
}

#[test]
fn raster_rejects_wrong_pixel_count() {
    assert!(Raster::from_pixels(2, 2, vec![Rgb { r: 0, g: 0, b: 0 }; 3]).is_none());
    let r = Raster::from_pixels(2, 1, vec![Rgb { r: 1, g: 0, b: 0 }, Rgb { r: 2, g: 0, b: 0 }]).unwrap();
    assert_eq!(r.get_pixel(1, 0), Rgb { r: 2, g: 0, b: 0 });
}

#[test]
fn raster_put_pixel_row_major() {
    let mut r = Raster::new(3, 2);
    r.put_pixel(2, 1, Rgb { r: 9, g: 9, b: 9 });
    assert_eq!(r.pixels[5], Rgb { r: 9, g: 9, b: 9 });
    assert_eq!(r.get_pixel(2, 1), Rgb { r: 9, g: 9, b: 9 });
    assert_eq!(r.get_pixel(1, 1), Rgb { r: 0, g: 0, b: 0 });
}
