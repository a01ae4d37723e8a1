//! Texture descriptor decoding.
//!
//! The identity directory hands back a profile whose first property value is
//! a base64-encoded JSON texture descriptor; the descriptor's
//! `textures.SKIN.url` field says where the raw skin texture bytes are
//! served.  The base64 and JSON work is delegated to the base64 and
//! serde_json crates behind the trusted items below; the extraction itself —
//! which fields are read, and which failures map to which error — is
//! verified code.
use crate::types::{Cape, Metadata, RenderError, Skin, Textures};
use base64::Engine;
use vstd::prelude::*;

verus! {

#[verifier::external_type_specification]
#[verifier::external_body]
pub struct ExJsonValue(serde_json::Value);

/// What the standard-alphabet base64 decoder makes of a string: nothing for
/// an input that is not valid base64, the decoded bytes otherwise.  A
/// function of the input alone.
pub uninterp spec fn base64_decode_of(s: Seq<char>) -> Option<Seq<u8>>;

/// Relies on base64's `Engine::decode` with the standard engine: whether the
/// input decodes, and the bytes it decodes to, depend on the input alone.
#[verifier::external_body]
fn b64_decode(s: &str) -> (r: Option<Vec<u8>>)
    ensures
        match r {
            Some(v) => base64_decode_of(s@) == Some(v@),
            None => base64_decode_of(s@) is None,
        },
{
    base64::engine::general_purpose::STANDARD.decode(s).ok()
}

/// The string leaf of a JSON document at a path of object keys: `None`
/// when the bytes are not a JSON document, when following the keys through
/// nested objects leaves the document, or when what the path reaches is not
/// a JSON string; otherwise that string's text.  A function of the bytes
/// and the path alone.
pub uninterp spec fn json_text_of(data: Seq<u8>, path: Seq<Seq<char>>) -> Option<Seq<char>>;

/// The same string-leaf model on a parsed JSON value: what the value holds
/// at a path of object keys.  The wrappers below all speak of it.
pub uninterp spec fn json_value_text(v: serde_json::Value, path: Seq<Seq<char>>) -> Option<
    Seq<char>,
>;

/// Relies on `serde_json::from_slice` at type `Value`: whether a byte
/// buffer parses as a JSON document, and the document it parses to, depend
/// on the bytes alone; the parsed value holds exactly the document's string
/// leaves.
#[verifier::external_body]
fn parse_json(data: &Vec<u8>) -> (r: Option<serde_json::Value>)
    ensures
        match r {
            Some(v) => forall|p: Seq<Seq<char>>|
                #[trigger] json_value_text(v, p) == json_text_of(data@, p),
            None => forall|p: Seq<Seq<char>>| #[trigger] json_text_of(data@, p) is None,
        },
{
    serde_json::from_slice(data.as_slice()).ok()
}

/// Relies on `serde_json::Value::get` with a string key: the member of an
/// object under that key, or `None` when the value is no object or has no
/// such member.  The member holds exactly the leaves the parent holds under
/// the key; a value without the member holds no leaf under the key.
#[verifier::external_body]
fn json_get<'a>(v: &'a serde_json::Value, key: &str) -> (r: Option<&'a serde_json::Value>)
    ensures
        match r {
            Some(c) => forall|p: Seq<Seq<char>>|
                #[trigger] json_value_text(*c, p) == json_value_text(*v, seq![key@] + p),
            None => forall|p: Seq<Seq<char>>|
                #[trigger] json_value_text(*v, seq![key@] + p) is None,
        },
{
    v.get(key)
}

/// Relies on `serde_json::Value::as_str`: the value's own text when it is a
/// JSON string — the leaf at the empty path — and `None` for every other
/// kind of value.
#[verifier::external_body]
fn json_as_string(v: &serde_json::Value) -> (r: Option<String>)
    ensures
        match r {
            Some(s) => json_value_text(*v, Seq::empty()) == Some(s@),
            None => json_value_text(*v, Seq::empty()) is None,
        },
{
    match v.as_str() {
        Some(s) => Some(s.to_owned()),
        None => None,
    }
}

/// The path of the skin texture URL inside a decoded descriptor.
pub open spec fn texture_url_path() -> Seq<Seq<char>> {
    seq!["textures"@, "SKIN"@, "url"@]
}

/// A property value carries a usable descriptor: it decodes as base64, the
/// bytes parse as JSON, and a string leaf sits at `textures.SKIN.url`.
pub open spec fn descriptor_available(s: Seq<char>) -> bool {
    &&& base64_decode_of(s) is Some
    &&& json_text_of(base64_decode_of(s)->0, texture_url_path()) is Some
}

/// The skin texture URL a usable property value carries.
pub open spec fn descriptor_url(s: Seq<char>) -> Seq<char> {
    json_text_of(base64_decode_of(s)->0, texture_url_path())->0
}

/// Decode a profile property value into its texture record: decode the
/// base64 payload, parse it as JSON, and read the `textures` section.  A
/// record comes back exactly when a string leaf sits at `textures.SKIN.url`
/// of the decoded document, and it carries exactly that URL; the skin's
/// model metadata and the cape, which this pipeline never uses, are kept
/// when present.  Every malformed payload — bad base64, bad JSON, or a
/// missing or non-string skin URL — is an upstream error.
pub fn decode_texture_descriptor(property_value: &str) -> (r: Result<Textures, RenderError>)
    ensures
        r is Ok <==> descriptor_available(property_value@),
        r matches Ok(t) ==> t.skin.url@ == descriptor_url(property_value@),
        r is Err ==> r->Err_0 == RenderError::Upstream,
{
    let decoded = match b64_decode(property_value) {
        Some(b) => b,
        None => {
            return Err(RenderError::Upstream);
        },
    };
    let ghost b = decoded@;
    proof {
        assert(seq!["url"@] + Seq::<Seq<char>>::empty() =~= seq!["url"@]);
        assert(seq!["SKIN"@] + seq!["url"@] =~= seq!["SKIN"@, "url"@]);
        assert(seq!["textures"@] + seq!["SKIN"@, "url"@] =~= texture_url_path());
    }
    let document = match parse_json(&decoded) {
        Some(v) => v,
        None => {
            proof {
                assert(json_text_of(b, texture_url_path()) is None);
            }
            return Err(RenderError::Upstream);
        },
    };
    proof {
        assert(json_value_text(document, texture_url_path()) == json_text_of(
            b,
            texture_url_path(),
        ));
    }
    let textures = match json_get(&document, "textures") {
        Some(v) => v,
        None => {
            proof {
                assert(json_value_text(document, seq!["textures"@] + seq!["SKIN"@, "url"@])
                    is None);
            }
            return Err(RenderError::Upstream);
        },
    };
    proof {
        assert(json_value_text(*textures, seq!["SKIN"@, "url"@]) == json_value_text(
            document,
            seq!["textures"@] + seq!["SKIN"@, "url"@],
        ));
    }
    let skin = match json_get(textures, "SKIN") {
        Some(v) => v,
        None => {
            proof {
                assert(json_value_text(*textures, seq!["SKIN"@] + seq!["url"@]) is None);
            }
            return Err(RenderError::Upstream);
        },
    };
    proof {
        assert(json_value_text(*skin, seq!["url"@]) == json_value_text(
            *textures,
            seq!["SKIN"@] + seq!["url"@],
        ));
    }
    let url = match json_get(skin, "url") {
        Some(v) => {
            proof {
                assert(json_value_text(*v, Seq::empty()) == json_value_text(
                    *skin,
                    seq!["url"@] + Seq::<Seq<char>>::empty(),
                ));
            }
            match json_as_string(v) {
                Some(url) => url,
                None => {
                    return Err(RenderError::Upstream);
                },
            }
        },
        None => {
            proof {
                assert(json_value_text(*skin, seq!["url"@] + Seq::<Seq<char>>::empty()) is None);
            }
            return Err(RenderError::Upstream);
        },
    };
    proof {
        assert(json_text_of(b, texture_url_path()) == Some(url@));
        assert(descriptor_available(property_value@));
        assert(url@ == descriptor_url(property_value@));
    }
    let metadata = match json_get(skin, "metadata") {
        Some(m) => match json_get(m, "model") {
            Some(v) => match json_as_string(v) {
                Some(model) => Some(Metadata { model }),
                None => None,
            },
            None => None,
        },
        None => None,
    };
    let cape = match json_get(textures, "CAPE") {
        Some(c) => match json_get(c, "url") {
            Some(v) => match json_as_string(v) {
                Some(cape_url) => Some(Cape { url: cape_url }),
                None => None,
            },
            None => None,
        },
        None => None,
    };
    Ok(Textures { skin: Skin { url, metadata }, cape })
}

/// Decode a profile property value into the skin texture URL alone: the one
/// field of the descriptor the avatar pipeline acts on.  A URL comes back
/// exactly when the descriptor carries one, and it is exactly the
/// descriptor's URL.
pub fn decode_texture_url(property_value: &str) -> (r: Result<String, RenderError>)
    ensures
        r is Ok <==> descriptor_available(property_value@),
        r matches Ok(url) ==> url@ == descriptor_url(property_value@),
        r is Err ==> r->Err_0 == RenderError::Upstream,
{
    match decode_texture_descriptor(property_value) {
        Ok(textures) => Ok(textures.skin.url),
        Err(e) => Err(e),
    }
}

} // verus!
