use ziria::bytes::{png_header_vec, repair, strip, HEADER_LEN};
use ziria::img::{encode_png, load_raster, Px, Raster};

fn solid_raster(width: usize, height: usize, px: Px) -> Raster {
    Raster { width, height, px: vec![px; width * height] }
}

#[test]
fn header_is_png_signature_and_ihdr() {
    let h = png_header_vec();
    assert_eq!(h.len(), HEADER_LEN);
    assert_eq!(&h[0..8], &[137, 80, 78, 71, 13, 10, 26, 10]);
    // IHDR length and chunk type
    assert_eq!(&h[8..16], &[0, 0, 0, 13, 73, 72, 68, 82]);
    // 8x8, bit depth 8, color type RGB, no compression/filter/interlace oddities
    assert_eq!(&h[16..29], &[0, 0, 0, 8, 0, 0, 0, 8, 8, 2, 0, 0, 0]);
}

#[test]
fn base_encoding_starts_with_canonical_header() {
    let r = solid_raster(8, 8, Px { r: 10, g: 20, b: 30, a: 255 });
    let encoded = encode_png(&r, false);
    let h = png_header_vec();
    assert!(encoded.len() > HEADER_LEN);
    assert_eq!(&encoded[0..HEADER_LEN], &h[..]);
}

#[test]
fn strip_then_repair_round_trips() {
    let r = solid_raster(8, 8, Px { r: 1, g: 2, b: 3, a: 255 });
    let encoded = encode_png(&r, false);
    let stripped = strip(encoded.clone()).expect("base encoding must strip");
    assert_eq!(stripped.len(), encoded.len() - HEADER_LEN);
    let repaired = repair(stripped);
    assert_eq!(repaired, encoded);
}

#[test]
fn repair_then_strip_round_trips() {
    let stored: Vec<u8> = vec![9, 8, 7, 6, 5];
    let repaired = repair(stored.clone());
    assert_eq!(strip(repaired), Some(stored));
}

#[test]
fn strip_refuses_foreign_buffers() {
    assert_eq!(strip(vec![]), None);
    assert_eq!(strip(vec![1, 2, 3]), None);
    // a full-length buffer that is not a base-size RGB encoding
    let mut wrong = png_header_vec();
    wrong[20] = 16;  // width byte changed
    wrong.extend_from_slice(&[0; 16]);
    assert_eq!(strip(wrong), None);
}

#[test]
fn strip_refuses_resized_encoding() {
    let r = solid_raster(16, 16, Px { r: 1, g: 2, b: 3, a: 255 });
    let encoded = encode_png(&r, false);
    assert_eq!(strip(encoded), None);
}

#[test]
fn strip_refuses_rgba_encoding() {
    let r = solid_raster(8, 8, Px { r: 1, g: 2, b: 3, a: 128 });
    let encoded = encode_png(&r, true);
    assert_eq!(strip(encoded), None);
}

#[test]
fn encode_decode_round_trips_pixels() {
    let mut px = Vec::new();
    for i in 0..64u32 {
        px.push(Px { r: i as u8, g: (2 * i) as u8, b: (3 * i) as u8, a: 255 });
    }
    let r = Raster { width: 8, height: 8, px: px.clone() };
    let encoded = encode_png(&r, false);
    let back = load_raster(&encoded).expect("own encoding must decode");
    assert_eq!(back.width, 8);
    assert_eq!(back.height, 8);
    assert_eq!(back.px, px);
}

#[test]
fn rgb_encoding_saturates_alpha() {
    let r = solid_raster(8, 8, Px { r: 40, g: 50, b: 60, a: 7 });
    let encoded = encode_png(&r, false);
    let back = load_raster(&encoded).expect("own encoding must decode");
    for p in &back.px {
        assert_eq!(*p, Px { r: 40, g: 50, b: 60, a: 255 });
    }
}

#[test]
fn load_raster_refuses_garbage() {
    assert!(load_raster(&vec![0, 1, 2, 3, 4, 5, 6, 7, 8, 9]).is_none());
    assert!(load_raster(&vec![]).is_none());
}
