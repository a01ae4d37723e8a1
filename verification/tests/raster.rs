use ziria::img::{compose, crop, encode_png, load_raster, overlay, resize, Px, Raster};

fn numbered_raster(width: usize, height: usize) -> Raster {
    let mut px = Vec::new();
    for i in 0..width * height {
        px.push(Px { r: (i % 251) as u8, g: (i % 241) as u8, b: (i % 239) as u8, a: 255 });
    }
    Raster { width, height, px }
}

/// A 64x64 texture whose face region holds one color and whose helm region
/// holds the given pixel everywhere.
fn texture_with_helm(face: Px, helm: Px) -> Raster {
    let mut t = numbered_raster(64, 64);
    for y in 0..8 {
        for x in 0..8 {
            t.px[(8 + y) * 64 + (8 + x)] = face;
            t.px[(8 + y) * 64 + (40 + x)] = helm;
        }
    }
    t
}

#[test]
fn crop_reads_the_region() {
    let t = numbered_raster(64, 64);
    let c = crop(&t, 8, 8, 8, 8);
    assert_eq!(c.width, 8);
    assert_eq!(c.height, 8);
    for y in 0..8 {
        for x in 0..8 {
            assert_eq!(c.px[y * 8 + x], t.px[(8 + y) * 64 + (8 + x)]);
        }
    }
}

#[test]
fn resize_upscales_blocks() {
    let mut r = numbered_raster(2, 2);
    r.px = vec![
        Px { r: 1, g: 0, b: 0, a: 255 },
        Px { r: 2, g: 0, b: 0, a: 255 },
        Px { r: 3, g: 0, b: 0, a: 255 },
        Px { r: 4, g: 0, b: 0, a: 255 },
    ];
    let z = resize(&r, 4);
    assert_eq!(z.width, 4);
    assert_eq!(z.height, 4);
    // each source pixel becomes a 2x2 block
    assert_eq!(z.px[0].r, 1);
    assert_eq!(z.px[1].r, 1);
    assert_eq!(z.px[2].r, 2);
    assert_eq!(z.px[3].r, 2);
    assert_eq!(z.px[3 * 4 + 0].r, 3);
    assert_eq!(z.px[3 * 4 + 3].r, 4);
}

#[test]
fn resize_is_idempotent_at_same_size() {
    let r = numbered_raster(8, 8);
    let once = resize(&r, 16);
    let twice = resize(&once, 16);
    assert_eq!(once.px, twice.px);
    assert_eq!(once.width, once.height);
    let r64 = numbered_raster(64, 64);
    let once64 = resize(&r64, 128);
    let twice64 = resize(&once64, 128);
    assert_eq!(once64.px, twice64.px);
}

#[test]
fn overlay_replaces_where_alpha_nonzero() {
    let base = numbered_raster(8, 8);
    let mut top = numbered_raster(8, 8);
    for i in 0..64 {
        top.px[i] = if i % 2 == 0 {
            Px { r: 200, g: 100, b: 50, a: 255 }
        } else {
            Px { r: 9, g: 9, b: 9, a: 0 }
        };
    }
    let merged = overlay(&base, &top);
    for i in 0..64 {
        if i % 2 == 0 {
            assert_eq!(merged.px[i], top.px[i]);
        } else {
            assert_eq!(merged.px[i], base.px[i]);
        }
    }
}

#[test]
fn compose_without_helm_is_the_face() {
    let face = Px { r: 7, g: 8, b: 9, a: 255 };
    let helm = Px { r: 1, g: 1, b: 1, a: 255 };
    let t = texture_with_helm(face, helm);
    let a = compose(&t, false);
    assert!(!a.rgba);
    assert_eq!(a.raster.width, 8);
    for p in &a.raster.px {
        assert_eq!(*p, face);
    }
}

#[test]
fn compose_with_opaque_helm_covers_the_face() {
    let face = Px { r: 7, g: 8, b: 9, a: 255 };
    let helm = Px { r: 1, g: 2, b: 3, a: 255 };
    let t = texture_with_helm(face, helm);
    let a = compose(&t, true);
    assert!(!a.rgba);
    for p in &a.raster.px {
        assert_eq!(*p, helm);
    }
}

#[test]
fn compose_with_transparent_helm_matches_no_helm() {
    let face = Px { r: 7, g: 8, b: 9, a: 255 };
    let helm = Px { r: 250, g: 250, b: 250, a: 0 };
    let t = texture_with_helm(face, helm);
    let with_helm = compose(&t, true);
    let without = compose(&t, false);
    assert_eq!(with_helm.raster.px, without.raster.px);
    assert_eq!(with_helm.rgba, without.rgba);
    let enc_with = encode_png(&with_helm.raster, with_helm.rgba);
    let enc_without = encode_png(&without.raster, without.rgba);
    assert_eq!(enc_with, enc_without);
}

#[test]
fn compose_with_translucent_helm_keeps_alpha() {
    let face = Px { r: 7, g: 8, b: 9, a: 255 };
    let helm = Px { r: 1, g: 2, b: 3, a: 128 };
    let t = texture_with_helm(face, helm);
    let a = compose(&t, true);
    assert!(a.rgba);
    for p in &a.raster.px {
        assert_eq!(*p, helm);
    }
}

#[test]
fn decoded_texture_matches_source() {
    let t = numbered_raster(64, 64);
    let encoded = encode_png(&t, true);
    let back = load_raster(&encoded).expect("encoding must decode");
    assert_eq!(back.width, 64);
    assert_eq!(back.height, 64);
    assert_eq!(back.px, t.px);
}
