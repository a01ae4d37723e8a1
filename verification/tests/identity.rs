use ziria::cache::{get_id, interpret_stored, set_avatar_cache, AVATAR_CACHE_TTL_SECONDS};
use ziria::img::{encode_png, Px, Raster};
use ziria::types::{
    canonical_string, first_property_value, parse_stable_id, MojangProfile, Property, RenderError,
    StableId, UuidOrString,
};

#[test]
fn canonical_string_of_nil_id() {
    let id = StableId { hi: 0, lo: 0 };
    assert_eq!(canonical_string(&id), "00000000-0000-0000-0000-000000000000");
}

#[test]
fn canonical_string_formats_hex_groups() {
    let id = StableId { hi: 0x069a79f444e94726, lo: 0xa5befca90e38aaf5 };
    assert_eq!(canonical_string(&id), "069a79f4-44e9-4726-a5be-fca90e38aaf5");
}

#[test]
fn parse_accepts_hyphenated_form() {
    let id = parse_stable_id("069a79f4-44e9-4726-a5be-fca90e38aaf5").unwrap();
    assert_eq!(id.hi, 0x069a79f444e94726);
    assert_eq!(id.lo, 0xa5befca90e38aaf5);
}

#[test]
fn parse_accepts_simple_form_and_uppercase() {
    let lower = parse_stable_id("069a79f444e94726a5befca90e38aaf5").unwrap();
    let upper = parse_stable_id("069A79F444E94726A5BEFCA90E38AAF5").unwrap();
    assert_eq!(lower, upper);
    assert_eq!(lower.lo, 0xa5befca90e38aaf5);
}

#[test]
fn parse_round_trips_canonical_form() {
    let id = StableId { hi: 0x0123456789abcdef, lo: 0xfedcba9876543210 };
    let s = canonical_string(&id);
    assert_eq!(parse_stable_id(&s), Some(id));
}

#[test]
fn parse_rejects_other_strings() {
    assert_eq!(parse_stable_id("Notch"), None);
    assert_eq!(parse_stable_id(""), None);
    assert_eq!(parse_stable_id("069a79f4-44e9-4726-a5be-fca90e38aaf"), None);
    assert_eq!(parse_stable_id("069a79f4_44e9_4726_a5be_fca90e38aaf5"), None);
    assert_eq!(parse_stable_id("g69a79f444e94726a5befca90e38aaf5"), None);
}

#[test]
fn token_dispatch_resolves_shape_once() {
    match UuidOrString::from_str("069a79f4-44e9-4726-a5be-fca90e38aaf5") {
        UuidOrString::Uuid(id) => assert_eq!(id.lo, 0xa5befca90e38aaf5),
        UuidOrString::Name(_) => panic!("identifier string must parse as an identifier"),
    }
    match UuidOrString::from_str("Notch") {
        UuidOrString::Uuid(_) => panic!("a display name is not an identifier"),
        UuidOrString::Name(n) => assert_eq!(n, "Notch"),
    }
}

#[test]
fn cache_key_is_suffix_and_flag() {
    let id = StableId { hi: 0x069a79f444e94726, lo: 0xa5befca90e38aaf5 };
    assert_eq!(get_id(&id, false), "38aaf5-f");
    assert_eq!(get_id(&id, true), "38aaf5-t");
}

#[test]
fn cache_key_is_deterministic() {
    let id = StableId { hi: 77, lo: 0xabcdef123456 };
    assert_eq!(get_id(&id, true), get_id(&id, true));
    assert_eq!(get_id(&id, false), get_id(&id, false));
    assert_ne!(get_id(&id, true), get_id(&id, false));
}

#[test]
fn cache_keys_collide_on_shared_suffix() {
    // the documented limitation: identifiers sharing the trailing six
    // hexadecimal digits share a key
    let a = StableId { hi: 1, lo: 0x1111_00abcdef };
    let b = StableId { hi: 2, lo: 0x2222_00abcdef };
    assert_eq!(get_id(&a, false), get_id(&b, false));
}

#[test]
fn empty_stored_value_is_a_miss() {
    assert_eq!(interpret_stored(None), None);
    assert_eq!(interpret_stored(Some(vec![])), None);
    assert_eq!(interpret_stored(Some(vec![1, 2])), Some(vec![1, 2]));
}

#[test]
fn cache_write_strips_and_carries_ttl() {
    let r = Raster { width: 8, height: 8, px: vec![Px { r: 5, g: 6, b: 7, a: 255 }; 64] };
    let base = encode_png(&r, false);
    let write = set_avatar_cache(base.clone(), String::from("abc-f")).expect("base must strip");
    assert_eq!(write.key, "abc-f");
    assert_eq!(write.ttl_seconds, AVATAR_CACHE_TTL_SECONDS);
    assert_eq!(write.value[..], base[33..]);
}

#[test]
fn cache_write_refuses_non_base_buffer() {
    assert!(set_avatar_cache(vec![1, 2, 3], String::from("k")).is_none());
}

#[test]
fn error_status_codes() {
    assert_eq!(RenderError::Validation.status_code(), 400);
    assert_eq!(RenderError::NotFound.status_code(), 404);
    assert_eq!(RenderError::Upstream.status_code(), 500);
    assert_eq!(RenderError::CacheCorruption.status_code(), 500);
    assert_eq!(RenderError::Encode.status_code(), 500);
}

#[test]
fn first_property_value_reads_the_first_property() {
    let profile = MojangProfile {
        id: String::from("069a79f444e94726a5befca90e38aaf5"),
        name: String::from("Notch"),
        properties: Some(vec![Property {
            name: String::from("textures"),
            value: String::from("payload"),
            signature: None,
        }]),
    };
    assert_eq!(first_property_value(&profile), Some(&String::from("payload")));
    let empty = MojangProfile {
        id: String::new(),
        name: String::new(),
        properties: Some(vec![]),
    };
    assert_eq!(first_property_value(&empty), None);
    let none = MojangProfile { id: String::new(), name: String::new(), properties: None };
    assert_eq!(first_property_value(&none), None);
}
