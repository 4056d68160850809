use mkrp::render::display::choose_window_size;
use image::{ImageBuffer, Rgba};
use mkrp::render::convert::{decode_avif_and_convert, ConvertedImage};
use mkrp::render::input::{
    action_for_event, is_quit_event, HandheldAction, SDLK_ESCAPE, SDLK_PAGEUP, SDLK_RETURN, SDL_FINGERDOWN,
    SDL_JOYBUTTONDOWN, SDL_KEYDOWN, SDL_MOUSEBUTTONDOWN, SDL_QUIT,
};
use mkrp::render::overlay::{blend_glyph, dim_pixel, highlight_pixel, hud_label, paint_rect, Paint};
use mkrp::render::scaler::{expand_rgb, is_avif_container, TextureScaler};
use std::io::Cursor;

fn png(w: u32, h: u32, px: [u8; 4]) -> Vec<u8> {
    let img: ImageBuffer<Rgba<u8>, Vec<u8>> = ImageBuffer::from_pixel(w, h, Rgba(px));
    let mut bytes = Vec::new();
    img.write_to(&mut Cursor::new(&mut bytes), image::ImageFormat::Png).unwrap();
    bytes
}

#[test]
fn texture_decode_and_downscale_rg40xxh() {
    let bytes = png(1920, 1080, [255, 0, 0, 255]);
    let scaler = TextureScaler::for_rg40xxh();
    assert_eq!((scaler.target_width(), scaler.target_height()), (640, 480));
    let px = TextureScaler::decode_rgba(&bytes).expect("decode");
    assert_eq!((px.width, px.height), (1920, 1080));
    assert_eq!(px.data.len(), 1920 * 1080 * 4);
    assert!(!scaler.keeps(px.width, px.height));
    let scaled = TextureScaler::resize(px, 640, 360).expect("resize");
    assert_eq!((scaled.width, scaled.height), (640, 360));
    assert_eq!(&scaled.data[0..4], &[255, 0, 0, 255]);
}

#[test]
fn small_images_and_disabled_downscale_are_kept() {
    let s = TextureScaler::new(640, 480, true);
    assert!(s.keeps(640, 480));
    assert!(!s.keeps(641, 10));
    assert!(TextureScaler::new(10, 10, false).keeps(5000, 5000));
}

#[test]
fn undecodable_bytes_are_an_error() {
    assert!(TextureScaler::decode_rgba(b"not an image at all").is_err());
    let mut fake = vec![0, 0, 0, 0];
    fake.extend_from_slice(b"ftypavif");
    assert!(is_avif_container(&fake));
    let e = TextureScaler::decode_rgba(&fake).err().unwrap();
    assert!(e.starts_with("Failed to decode AVIF image: "));
    match decode_avif_and_convert(&fake) {
        Err(m) => assert!(m.starts_with("AVIF decode error: ")),
        Ok((ConvertedImage::Png(_), _)) | Ok((ConvertedImage::Jpeg(_), _)) => panic!("not an image"),
    }
}

#[test]
fn avif_signatures() {
    let mk = |brand: &[u8]| {
        let mut v = vec![0, 0, 0, 0x20];
        v.extend_from_slice(b"ftyp");
        v.extend_from_slice(brand);
        v
    };
    assert!(is_avif_container(&mk(b"avis")));
    assert!(is_avif_container(&mk(b"mif1")));
    assert!(!is_avif_container(&mk(b"heic")));
    assert!(!is_avif_container(b"ftypavif"));
}

#[test]
fn rgb_gets_opaque_alpha() {
    assert_eq!(expand_rgb(&[1, 2, 3, 4, 5, 6, 7]), vec![1, 2, 3, 255, 4, 5, 6, 255]);
}

#[test]
fn overlay_pixel_arithmetic() {
    assert_eq!(dim_pixel([100, 100, 100, 7]), [40, 42, 47, 7]);
    assert_eq!(highlight_pixel([100, 100, 100, 9]), [180, 148, 60, 9]);
    assert_eq!(blend_glyph([0, 0, 0, 0], [255, 255, 255, 255], 255), [255, 255, 255, 255]);
    assert_eq!(blend_glyph([10, 20, 30, 40], [255, 255, 255, 255], 0), [10, 20, 30, 40]);
    assert_eq!(blend_glyph([0, 0, 0, 255], [200, 100, 50, 255], 128), [100, 50, 25, 255]);
    // An uncovered pixel is kept; a fully covered one takes an opaque colour.
    assert_eq!(blend_glyph([1, 2, 3, 4], [200, 100, 50, 77], 0), [1, 2, 3, 4]);
    assert_eq!(blend_glyph([9, 8, 7, 6], [200, 100, 50, 255], 255), [200, 100, 50, 255]);
    assert_eq!(hud_label(true, true), Some(">> SKIP >>"));
    assert_eq!(hud_label(true, false), Some(">> AUTO >>"));
    assert_eq!(hud_label(false, false), None);
}

#[test]
fn events_map_to_actions() {
    assert_eq!(action_for_event(SDL_QUIT, 0, 0), Some(HandheldAction::Quit));
    assert_eq!(action_for_event(SDL_KEYDOWN, SDLK_RETURN, 0), Some(HandheldAction::Next));
    assert_eq!(action_for_event(SDL_KEYDOWN, SDLK_PAGEUP, 0), Some(HandheldAction::Rollback));
    assert_eq!(action_for_event(SDL_KEYDOWN, 12345, 0), Some(HandheldAction::Next));
    assert_eq!(action_for_event(SDL_KEYDOWN, SDLK_ESCAPE, 0), Some(HandheldAction::Quit));
    assert_eq!(action_for_event(SDL_FINGERDOWN, 0, 0), Some(HandheldAction::Next));
    assert_eq!(action_for_event(SDL_MOUSEBUTTONDOWN, 0, 3), Some(HandheldAction::Rollback));
    assert_eq!(action_for_event(SDL_MOUSEBUTTONDOWN, 0, 2), None);
    assert_eq!(action_for_event(SDL_JOYBUTTONDOWN, 0, 2), Some(HandheldAction::HideUi));
    assert_eq!(action_for_event(SDL_JOYBUTTONDOWN, 0, 10), Some(HandheldAction::Quit));
    assert_eq!(action_for_event(SDL_JOYBUTTONDOWN, 0, 99), Some(HandheldAction::Next));
    assert_eq!(action_for_event(0x200, 0, 0), None);
    assert!(is_quit_event(SDL_KEYDOWN, SDLK_ESCAPE));
    assert!(!is_quit_event(SDL_KEYDOWN, SDLK_RETURN));
    assert_eq!(mkrp::render::info(), "mkrp-render v0.1.0");
}

#[test]
fn window_size_choice() {
    assert_eq!(choose_window_size(640, 480, Some((1280, 720)), Some("800"), Some("600")), (1280, 720));
    assert_eq!(choose_window_size(640, 480, Some((0, 720)), Some("800"), Some("+600")), (800, 600));
    assert_eq!(choose_window_size(640, 480, None, Some("x"), Some("600")), (640, 480));
    assert_eq!(choose_window_size(640, 480, Some((-5, -5)), None, Some("600")), (640, 480));
    assert_eq!(choose_window_size(320, 240, None, None, None), (320, 240));
}

#[test]
fn painting_rectangles_clips_to_the_frame() {
    // A frame of 3 by 2 pixels.
    let mut px: Vec<u8> = (0..24).map(|i| i as u8).collect();
    let orig = px.clone();
    paint_rect(&mut px, 3, 2, 1, 0, 5, 1, Paint::Fill([9, 9, 9, 9]));
    assert_eq!(&px[0..4], &orig[0..4]);
    assert_eq!(&px[4..12], &[9, 9, 9, 9, 9, 9, 9, 9]);
    assert_eq!(&px[12..24], &orig[12..24]);
    let mut px2 = orig.clone();
    paint_rect(&mut px2, 3, 2, 0, 1, 1, 7, Paint::Dim);
    let d = dim_pixel([orig[12], orig[13], orig[14], orig[15]]);
    assert_eq!(&px2[12..16], &d);
    assert_eq!(&px2[0..12], &orig[0..12]);
    assert_eq!(&px2[16..24], &orig[16..24]);
    let mut px3 = orig.clone();
    paint_rect(&mut px3, 3, 2, 0, 0, 3, 2, Paint::Highlight);
    assert_eq!(&px3[20..24], &highlight_pixel([orig[20], orig[21], orig[22], orig[23]]));
    let mut px4 = orig.clone();
    paint_rect(&mut px4, 3, 2, 3, 0, 2, 2, Paint::Dim);
    assert_eq!(px4, orig);
}
