use base64::Engine;
use ziria::bytes::repair;
use ziria::img::{compose, encode_png, load_raster, resize, Px, Raster};
use ziria::mojang::decode_texture_url;
use ziria::pipeline::{
    begin, cache_checked, flush_allowed, profile_received, render_skin, resolved, skin_begin,
    skin_texture_received, texture_received, valid_avatar_size, valid_skin_size, AvatarStep,
    SkinStep,
};
use ziria::types::{RenderError, StableId, UuidOrString};

const NOTCH_ID: &str = "069a79f4-44e9-4726-a5be-fca90e38aaf5";
const SKIN_URL: &str = "http://textures.example/texture/abcdef";

fn notch_texture() -> Raster {
    let mut px = Vec::new();
    for i in 0..64 * 64 {
        px.push(Px { r: (i % 13) as u8, g: (i % 17) as u8, b: (i % 19) as u8, a: 255 });
    }
    Raster { width: 64, height: 64, px }
}

fn descriptor_property() -> String {
    let json = format!(
        "{{\"timestamp\":1,\"profileId\":\"069a79f444e94726a5befca90e38aaf5\",\
         \"profileName\":\"Notch\",\"textures\":{{\"SKIN\":{{\"url\":\"{}\"}}}}}}",
        SKIN_URL
    );
    base64::engine::general_purpose::STANDARD.encode(json)
}

#[test]
fn size_boundaries_are_enforced() {
    assert!(!valid_avatar_size(7));
    assert!(!valid_avatar_size(9));
    assert!(!valid_avatar_size(513));
    assert!(valid_avatar_size(8));
    assert!(valid_avatar_size(512));
    assert!(!valid_skin_size(63));
    assert!(!valid_skin_size(65));
    assert!(!valid_skin_size(513));
    assert!(valid_skin_size(64));
    assert!(valid_skin_size(512));
}

#[test]
fn invalid_size_is_rejected_up_front() {
    for bad in [7u32, 9, 513] {
        match begin(UuidOrString::from_str("Notch"), bad, false) {
            AvatarStep::Fail { status, message } => {
                assert_eq!(status, 400);
                assert_eq!(message, "Size must be between 8 and 512, and divisible by 8.");
            }
            _ => panic!("size {bad} must be rejected"),
        }
    }
    match skin_begin(UuidOrString::from_str("Notch"), 65) {
        SkinStep::Fail { status, message } => {
            assert_eq!(status, 400);
            assert_eq!(message, "Size must be between 64 and 512, and divisible by 64.");
        }
        _ => panic!("skin size 65 must be rejected"),
    }
}

#[test]
fn notch_first_request_misses_fetches_and_caches() {
    // the token "Notch" is a display name, so the directory is asked first
    let step = begin(UuidOrString::from_str("Notch"), 8, false);
    let (name, size, helm) = match step {
        AvatarStep::NeedResolve { name, size, helm } => (name, size, helm),
        _ => panic!("a name must be resolved"),
    };
    assert_eq!(name, "Notch");

    // the directory answers with the stable identifier
    let step = resolved(Some(String::from(NOTCH_ID)), size, helm);
    let (req, key) = match step {
        AvatarStep::NeedCache { req, key } => (req, key),
        _ => panic!("a resolved identifier goes to the cache"),
    };
    assert_eq!(key, "38aaf5-f");
    assert_eq!(req.id, StableId { hi: 0x069a79f444e94726, lo: 0xa5befca90e38aaf5 });

    // cold cache: miss, so the profile is fetched
    let step = cache_checked(req, key.clone(), None);
    let (req, key) = match step {
        AvatarStep::NeedProfile { req, key } => (req, key),
        _ => panic!("a miss fetches the profile"),
    };

    // the profile's property value decodes to the texture URL
    let step = profile_received(req, key.clone(), Some(descriptor_property()));
    let (req, key, url) = match step {
        AvatarStep::NeedTexture { req, key, url } => (req, key, url),
        _ => panic!("a good descriptor yields the texture URL"),
    };
    assert_eq!(url, SKIN_URL);

    // the texture arrives; the face region is cropped, encoded and cached
    let texture = notch_texture();
    let texture_bytes = encode_png(&texture, true);
    let outcome = texture_received(req, key, Some(texture_bytes));
    let body = match outcome.step {
        AvatarStep::Respond { body } => body,
        _ => panic!("a good texture renders"),
    };
    let expected_avatar = compose(&texture, false);
    assert!(!expected_avatar.rgba);
    let expected_base = encode_png(&expected_avatar.raster, false);
    assert_eq!(body, expected_base, "at size 8 the response is the base encoding");

    let write = outcome.write.expect("an RGB base render is cached");
    assert_eq!(write.key, "38aaf5-f");
    assert_eq!(write.ttl_seconds, 21600);
    assert_eq!(write.value[..], expected_base[33..]);

    // the second identical request hits the cache and answers byte-identical
    // bytes without any further step
    let step = begin(
        UuidOrString::Uuid(StableId { hi: 0x069a79f444e94726, lo: 0xa5befca90e38aaf5 }),
        8,
        false,
    );
    let (req2, key2) = match step {
        AvatarStep::NeedCache { req, key } => (req, key),
        _ => panic!("an identifier goes to the cache"),
    };
    assert_eq!(key2, "38aaf5-f");
    match cache_checked(req2, key2, Some(write.value.clone())) {
        AvatarStep::Respond { body: body2 } => assert_eq!(body2, body),
        _ => panic!("a hit answers directly"),
    }
}

#[test]
fn unresolvable_name_is_not_found_and_writes_nothing() {
    let step = begin(UuidOrString::from_str("NoSuchPlayer"), 8, false);
    let (_, size, helm) = match step {
        AvatarStep::NeedResolve { name, size, helm } => (name, size, helm),
        _ => panic!("a name must be resolved"),
    };
    // the directory has no answer
    match resolved(None, size, helm) {
        AvatarStep::Fail { status, message } => {
            assert_eq!(status, 404);
            assert_eq!(message, "User not found!");
        }
        _ => panic!("an unresolvable name is 404"),
    }
    // the all-zero sentinel means the same
    match resolved(Some(String::from("00000000-0000-0000-0000-000000000000")), 8, false) {
        AvatarStep::Fail { status, .. } => assert_eq!(status, 404),
        _ => panic!("the sentinel identifier is 404"),
    }
}

#[test]
fn cached_base_entry_serves_resized_request() {
    // populate: render at base size, keep the cache write
    let texture = notch_texture();
    let avatar = compose(&texture, false);
    let base = encode_png(&avatar.raster, false);
    let stored = ziria::bytes::strip(base.clone()).unwrap();

    // a later request for size 64 hits that 8x8 entry and resizes it
    let step = begin(
        UuidOrString::Uuid(StableId { hi: 0x069a79f444e94726, lo: 0xa5befca90e38aaf5 }),
        64,
        false,
    );
    let (req, key) = match step {
        AvatarStep::NeedCache { req, key } => (req, key),
        _ => panic!("an identifier goes to the cache"),
    };
    let body = match cache_checked(req, key, Some(stored.clone())) {
        AvatarStep::Respond { body } => body,
        _ => panic!("a hit resizes without re-fetching"),
    };
    let decoded = load_raster(&repair(stored)).unwrap();
    let expected = encode_png(&resize(&decoded, 64), false);
    assert_eq!(body, expected);
}

#[test]
fn corrupt_cache_entry_is_a_server_error() {
    let step = begin(
        UuidOrString::Uuid(StableId { hi: 1, lo: 2 }),
        64,
        false,
    );
    let (req, key) = match step {
        AvatarStep::NeedCache { req, key } => (req, key),
        _ => panic!("an identifier goes to the cache"),
    };
    match cache_checked(req, key, Some(vec![1, 2, 3, 4])) {
        AvatarStep::Fail { status, message } => {
            assert_eq!(status, 500);
            assert_eq!(message, "Error loading avatar from cache!");
        }
        _ => panic!("bytes that do not decode are corruption"),
    }
}

#[test]
fn missing_profile_or_texture_is_not_found() {
    let step = begin(UuidOrString::Uuid(StableId { hi: 1, lo: 2 }), 8, true);
    let (req, key) = match step {
        AvatarStep::NeedCache { req, key } => (req, key),
        _ => panic!(),
    };
    match profile_received(req, key.clone(), None) {
        AvatarStep::Fail { status, message } => {
            assert_eq!(status, 404);
            assert_eq!(message, "Skin not found!");
        }
        _ => panic!("a profile without properties is 404"),
    }
    let outcome = texture_received(req, key, None);
    match outcome.step {
        AvatarStep::Fail { status, .. } => assert_eq!(status, 404),
        _ => panic!("a missing texture is 404"),
    }
    assert!(outcome.write.is_none());
}

#[test]
fn malformed_descriptor_is_not_found() {
    let step = begin(UuidOrString::Uuid(StableId { hi: 1, lo: 2 }), 8, false);
    let (req, key) = match step {
        AvatarStep::NeedCache { req, key } => (req, key),
        _ => panic!(),
    };
    // not base64 at all
    match profile_received(req, key, Some(String::from("%%% not base64 %%%"))) {
        AvatarStep::Fail { status, .. } => assert_eq!(status, 404),
        _ => panic!("a malformed payload is 404"),
    }
}

#[test]
fn descriptor_decoding_extracts_the_url() {
    assert_eq!(decode_texture_url(&descriptor_property()), Ok(String::from(SKIN_URL)));
    assert_eq!(
        decode_texture_url("%%% not base64 %%%"),
        Err(RenderError::Upstream)
    );
    let not_json = base64::engine::general_purpose::STANDARD.encode("not json at all");
    assert_eq!(decode_texture_url(&not_json), Err(RenderError::Upstream));
    let no_skin = base64::engine::general_purpose::STANDARD
        .encode("{\"textures\":{\"CAPE\":{\"url\":\"x\"}}}");
    assert_eq!(decode_texture_url(&no_skin), Err(RenderError::Upstream));
    let url_not_string = base64::engine::general_purpose::STANDARD
        .encode("{\"textures\":{\"SKIN\":{\"url\":7}}}");
    assert_eq!(decode_texture_url(&url_not_string), Err(RenderError::Upstream));
}

#[test]
fn descriptor_record_keeps_metadata_and_cape() {
    let json = "{\"textures\":{\"SKIN\":{\"url\":\"http://t/skin\",\
                 \"metadata\":{\"model\":\"slim\"}},\"CAPE\":{\"url\":\"http://t/cape\"}}}";
    let property = base64::engine::general_purpose::STANDARD.encode(json);
    let textures = ziria::mojang::decode_texture_descriptor(&property).unwrap();
    assert_eq!(textures.skin.url, "http://t/skin");
    assert_eq!(textures.skin.metadata.unwrap().model, "slim");
    assert_eq!(textures.cape.unwrap().url, "http://t/cape");

    let bare = base64::engine::general_purpose::STANDARD
        .encode("{\"textures\":{\"SKIN\":{\"url\":\"http://t/skin\"}}}");
    let textures = ziria::mojang::decode_texture_descriptor(&bare).unwrap();
    assert_eq!(textures.skin.url, "http://t/skin");
    assert!(textures.skin.metadata.is_none());
    assert!(textures.cape.is_none());
}

#[test]
fn undersized_texture_is_an_upstream_error() {
    let small = Raster { width: 32, height: 32, px: vec![Px { r: 0, g: 0, b: 0, a: 255 }; 1024] };
    let bytes = encode_png(&small, true);
    let step = begin(UuidOrString::Uuid(StableId { hi: 1, lo: 2 }), 8, false);
    let (req, key) = match step {
        AvatarStep::NeedCache { req, key } => (req, key),
        _ => panic!(),
    };
    let outcome = texture_received(req, key, Some(bytes));
    match outcome.step {
        AvatarStep::Fail { status, message } => {
            assert_eq!(status, 500);
            assert_eq!(message, "Error decoding skin texture!");
        }
        _ => panic!("a texture of the wrong shape fails"),
    }
}

#[test]
fn whole_skin_render_at_source_and_scaled_sizes() {
    let texture = notch_texture();
    let bytes = encode_png(&texture, true);
    let body = render_skin(bytes.clone(), 64).unwrap();
    assert_eq!(body, encode_png(&texture, false));
    let body = render_skin(bytes.clone(), 128).unwrap();
    assert_eq!(body, encode_png(&resize(&texture, 128), false));
    assert_eq!(render_skin(vec![1, 2, 3], 64), Err(RenderError::Upstream));
    match skin_texture_received(64, Some(bytes)) {
        SkinStep::Respond { body } => assert_eq!(body, encode_png(&texture, false)),
        _ => panic!("a good texture renders"),
    }
}

#[test]
fn flush_needs_the_exact_secret() {
    assert!(flush_allowed("open sesame", "open sesame"));
    assert!(!flush_allowed("open sesame", "OPEN SESAME"));
    assert!(!flush_allowed("", "open sesame"));
}
