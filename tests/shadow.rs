use superbook_pdf::marker::RgbImage;
use superbook_pdf::shadow::{Edge, ShadowDetector, ShadowRemovalMethod, ShadowRemovalOptions, ShadowSpan};

fn gradient_page(width: u32, height: u32, dark_cols: u32) -> RgbImage {
    let mut pixels = Vec::new();
    for _y in 0..height {
        for x in 0..width {
            let v: u8 = if x < dark_cols { (100 + x * 5) as u8 } else { 240 };
            pixels.extend_from_slice(&[v, v, v]);
        }
    }
    RgbImage { width, height, pixels }
}

#[test]
fn edges_and_default_method() {
    assert_eq!(Edge::all(), [Edge::Left, Edge::Right, Edge::Top, Edge::Bottom]);
    assert_eq!(Edge::horizontal(), [Edge::Left, Edge::Right]);
    assert_eq!(ShadowRemovalMethod::default(), ShadowRemovalMethod::BrightnessEqualization);
}

#[test]
fn brightness_sums_follow_the_edge() {
    let img = gradient_page(40, 10, 20);
    let left = ShadowDetector::brightness_sums(&img, Edge::Left, 5);
    // 10 sampled rows of grey 100: 1000 * 100 per row.
    assert_eq!(left[0], 10 * 100 * 1000);
    assert_eq!(left[1], 10 * 105 * 1000);
    let right = ShadowDetector::brightness_sums(&img, Edge::Right, 5);
    assert_eq!(right[0], 10 * 240 * 1000);
}

#[test]
fn shadow_width_found_on_the_left() {
    let img = gradient_page(80, 20, 20);
    let sums = ShadowDetector::brightness_sums(&img, Edge::Left, 40);
    let scale = 20 * 255_000u64;
    let width = ShadowDetector::find_shadow_boundary(&sums, scale, 85);
    assert_eq!(width, 19);
    let span = ShadowDetector::detect_edge_shadow(Edge::Left, &sums, scale, 85, 10).unwrap();
    assert_eq!(span.width, 19);
    assert_eq!(span.min_sum, sums[0]);
    assert_eq!(span.max_sum, sums[19]);
    assert!(ShadowDetector::detect_edge_shadow(Edge::Left, &sums, scale, 85, 30).is_none());
    let right = ShadowDetector::brightness_sums(&img, Edge::Right, 40);
    assert!(ShadowDetector::detect_edge_shadow(Edge::Right, &right, scale, 85, 10).is_none());
}

#[test]
fn short_profiles_have_no_shadow() {
    assert_eq!(ShadowDetector::find_shadow_boundary(&vec![1, 2], 100, 85), 0);
    assert_eq!(ShadowDetector::find_shadow_boundary(&vec![1, 2, 3, 4, 5], 100, 85), 0);
}

#[test]
fn equalization_brightens_the_strip() {
    let mut img = gradient_page(10, 2, 3);
    let sums = vec![100, 200, 400];
    ShadowDetector::apply_brightness_equalization(&mut img, Edge::Left, 3, &sums, 400);
    // column 0: 100 * 400 / 100 = 400 -> 255; column 1: 105 * 2 = 210; column 2 unchanged.
    assert_eq!(&img.pixels[0..9], &[255, 255, 255, 210, 210, 210, 110, 110, 110]);
    assert_eq!(img.pixels[9], 240);
    assert_eq!(img.pixels[30], 255);
}

#[test]
fn sample_width_and_scale() {
    assert_eq!(ShadowDetector::sample_width(1000, 15), 150);
    assert_eq!(ShadowDetector::sample_width(40, 15), 10);
    assert_eq!(ShadowDetector::sample_width(8, 15), 8);
    assert_eq!(ShadowDetector::profile_scale(20), 20 * 255_000);
    assert_eq!(ShadowDetector::profile_scale(3000), 50 * 255_000);
}

#[test]
fn gradient_correction_fades_inward() {
    let mut img = RgbImage { width: 6, height: 1, pixels: vec![100; 18] };
    let span = ShadowSpan { edge: Edge::Left, width: 4, min_sum: 500, max_sum: 1000 };
    ShadowDetector::apply_gradient_correction(&mut img, Edge::Left, &span, 1000);
    let reds: Vec<u8> = img.pixels.chunks(3).map(|p| p[0]).collect();
    assert_eq!(reds, vec![200, 175, 150, 125, 100, 100]);
    let mut right = RgbImage { width: 6, height: 1, pixels: vec![100; 18] };
    ShadowDetector::apply_gradient_correction(&mut right, Edge::Right, &span, 1000);
    let reds: Vec<u8> = right.pixels.chunks(3).map(|p| p[0]).collect();
    assert_eq!(reds, vec![100, 100, 125, 150, 175, 200]);
}

#[test]
fn shadows_along_requested_edges() {
    let img = gradient_page(80, 20, 20);
    let options = ShadowRemovalOptions::default();
    let spans = ShadowDetector::detect_from_image(&img, &options);
    assert_eq!(spans.len(), 1);
    assert_eq!(spans[0].edge, Edge::Left);
    assert!(spans[0].width >= 10);
}
