//! The request pipeline, as a state machine of plain values.
//!
//! Each inbound render request walks the states `begin` (validate and derive
//! the cache key) → `cache_checked` (hit: decode, resize, respond; miss:
//! fetch) → `profile_received` (extract the texture URL) →
//! `texture_received` (compose, encode, respond, and hand back the cache
//! write).  Display names pass through `resolved` first.  The caller
//! performs the network work each step names — a directory query, a cache
//! read, a texture download, a cache write — and feeds the outcome to the
//! next step; every decision between those waits is made and verified here.
use crate::bytes;
use crate::cache::{
    cache_key_spec, get_id, interpret_stored, set_avatar_cache, stored_hit, CacheWrite,
    AVATAR_CACHE_TTL_SECONDS,
};
use crate::img::{
    compose, compose_pix, decoded, encode_png, encoded_spec, helm_pix, helm_retains_alpha,
    load_raster, png_decode_of, px_from_rgba, resize, AvatarRaster, Raster,
};
use crate::types::{
    digits_of, id_of_digits, is_hyphenated_form, is_simple_form, RenderError, StableId,
    UuidOrString,
};
use vstd::prelude::*;

verus! {

/// A valid avatar size: between 8 and 512, and divisible by 8.
pub open spec fn avatar_size_ok(size: u32) -> bool {
    8 <= size <= 512 && size % 8 == 0
}

/// A valid whole-skin size: between 64 and 512, and divisible by 64.
pub open spec fn skin_size_ok(size: u32) -> bool {
    64 <= size <= 512 && size % 64 == 0
}

/// Validate a requested avatar size.
pub fn valid_avatar_size(size: u32) -> (r: bool)
    ensures
        r == avatar_size_ok(size),
{
    size >= 8 && size <= 512 && size % 8 == 0
}

/// Validate a requested whole-skin size.
pub fn valid_skin_size(size: u32) -> (r: bool)
    ensures
        r == skin_size_ok(size),
{
    size >= 64 && size <= 512 && size % 64 == 0
}

pub open spec fn msg_bad_avatar_size() -> Seq<char> {
    "Size must be between 8 and 512, and divisible by 8."@
}

pub open spec fn msg_bad_skin_size() -> Seq<char> {
    "Size must be between 64 and 512, and divisible by 64."@
}

pub open spec fn msg_user_not_found() -> Seq<char> {
    "User not found!"@
}

pub open spec fn msg_skin_not_found() -> Seq<char> {
    "Skin not found!"@
}

pub open spec fn msg_cache_corrupt() -> Seq<char> {
    "Error loading avatar from cache!"@
}

pub open spec fn msg_texture_decode() -> Seq<char> {
    "Error decoding skin texture!"@
}

/// One avatar render request after validation and identity resolution.
#[derive(Clone, Copy, PartialEq, Eq, Structural, Debug)]
pub struct AvatarRequest {
    pub id: StableId,
    pub size: u32,
    pub helm: bool,
}

/// Where an avatar request stands, and what outside work it needs next.
pub enum AvatarStep {
    /// Ask the identity directory for the stable identifier of this name.
    NeedResolve { name: String, size: u32, helm: bool },
    /// Read the cache store at this key.
    NeedCache { req: AvatarRequest, key: String },
    /// Ask the identity directory for the profile of this identifier.
    NeedProfile { req: AvatarRequest, key: String },
    /// Download the texture bytes at this URL.
    NeedTexture { req: AvatarRequest, key: String, url: String },
    /// Answer with an error status and a plain-text message.
    Fail { status: u16, message: String },
    /// Answer 200 with these image bytes.
    Respond { body: Vec<u8> },
}

/// Where a whole-skin request stands, and what outside work it needs next.
pub enum SkinStep {
    /// Ask the identity directory for the stable identifier of this name.
    NeedResolve { name: String, size: u32 },
    /// Ask the identity directory for the profile of this identifier.
    NeedProfile { id: StableId, size: u32 },
    /// Download the texture bytes at this URL.
    NeedTexture { size: u32, url: String },
    /// Answer with an error status and a plain-text message.
    Fail { status: u16, message: String },
    /// Answer 200 with these image bytes.
    Respond { body: Vec<u8> },
}

/// What a raw token resolves to: the identifier its string form denotes,
/// unless the form is not an identifier at all or denotes the all-zero
/// sentinel, which the directory uses for "no such user".
pub open spec fn resolved_id(s: Seq<char>) -> Option<StableId> {
    if is_simple_form(s) || is_hyphenated_form(s) {
        let id = id_of_digits(digits_of(s));
        if id.is_nil_spec() {
            None
        } else {
            Some(id)
        }
    } else {
        None
    }
}

/// A non-sentinel identifier's canonical string form resolves back to
/// exactly that identifier: resolution never re-reads a token downstream
/// differently from the boundary.
pub proof fn lemma_resolve_canonical(id: StableId)
    requires
        !id.is_nil_spec(),
    ensures
        resolved_id(crate::types::canonical_id_seq(id)) == Some(id),
{
    crate::types::lemma_canonical_string_parses_back(id);
}

/// `r` is the raster that `data` decodes to.
pub open spec fn is_decode_of(r: Raster, data: Seq<u8>) -> bool {
    &&& png_decode_of(data) is Some
    &&& r.wf()
    &&& r.width == decoded(data).0
    &&& r.height == decoded(data).1
    &&& forall|k: int|
        0 <= k < r.width * r.height ==> #[trigger] r.px@[k] == px_from_rgba(decoded(data).2, k)
}

/// `r` is `image` scaled to the `size`-by-`size` square by nearest-neighbor
/// sampling.
pub open spec fn is_resize_of(r: Raster, image: Raster, size: int) -> bool {
    &&& r.wf()
    &&& r.width == size
    &&& r.height == size
    &&& forall|x: int, y: int|
        0 <= x < size && 0 <= y < size ==> #[trigger] r.pix(x, y) == image.pix(
            (x * image.width) / size,
            (y * image.height) / size,
        )
}

/// `a` is the avatar composed from `texture`: the face region, with the
/// helm region laid over it when asked, tagged RGBA exactly when the
/// composited helm leaves partial transparency.
pub open spec fn is_compose_of(a: AvatarRaster, texture: Raster, helm: bool) -> bool {
    &&& a.raster.wf()
    &&& a.raster.width == 8
    &&& a.raster.height == 8
    &&& forall|x: int, y: int|
        0 <= x < 8 && 0 <= y < 8 ==> #[trigger] a.raster.pix(x, y) == compose_pix(
            texture,
            helm,
            x,
            y,
        )
    &&& a.rgba == (helm && helm_retains_alpha(texture))
}

/// The bytes stored under a cache key decode (after repair) to a raster a
/// well-formed raster can hold.
pub open spec fn cached_ok(stored: Seq<u8>) -> bool {
    &&& png_decode_of(bytes::repair_spec(stored)) is Some
    &&& 1 <= decoded(bytes::repair_spec(stored)).0 <= 4096
    &&& 1 <= decoded(bytes::repair_spec(stored)).1 <= 4096
}

/// `body` is the render served from cached bytes at a size other than the
/// base: the repaired bytes decoded, resized, and encoded RGB.
pub open spec fn is_cached_render(stored: Seq<u8>, size: int, body: Seq<u8>) -> bool {
    exists|ra: Raster, rz: Raster|
        {
            &&& #[trigger] is_decode_of(ra, bytes::repair_spec(stored))
            &&& #[trigger] is_resize_of(rz, ra, size)
            &&& body == encoded_spec(rz, false)
        }
}

/// The downloaded texture bytes decode to the fixed 64-by-64 source raster.
pub open spec fn texture_ok(texture: Seq<u8>) -> bool {
    &&& png_decode_of(texture) is Some
    &&& decoded(texture).0 == 64
    &&& decoded(texture).1 == 64
}

/// `body` and `base` are the response and base-size encodings rendered from
/// fresh texture bytes: the texture decoded, the avatar composed, the base
/// encoded at 8-by-8, and the response encoded at the requested size.
pub open spec fn is_avatar_render(
    texture: Seq<u8>,
    size: int,
    helm: bool,
    body: Seq<u8>,
    base: Seq<u8>,
    rgba: bool,
) -> bool {
    exists|t: Raster, a: AvatarRaster|
        {
            &&& #[trigger] is_decode_of(t, texture)
            &&& t.width == 64
            &&& t.height == 64
            &&& #[trigger] is_compose_of(a, t, helm)
            &&& rgba == a.rgba
            &&& base == encoded_spec(a.raster, a.rgba)
            &&& if size == 8 {
                body == base
            } else {
                exists|rz: Raster|
                    #[trigger] is_resize_of(rz, a.raster, size) && body == encoded_spec(rz, a.rgba)
            }
        }
}

/// `body` is the whole-skin render: the texture decoded, resized when the
/// requested size is not the source size, and encoded RGB.
pub open spec fn is_skin_render(texture: Seq<u8>, size: int, body: Seq<u8>) -> bool {
    exists|t: Raster|
        {
            &&& #[trigger] is_decode_of(t, texture)
            &&& t.width == 64
            &&& t.height == 64
            &&& if size == 64 {
                body == encoded_spec(t, false)
            } else {
                exists|rz: Raster|
                    #[trigger] is_resize_of(rz, t, size) && body == encoded_spec(rz, false)
            }
        }
}

/// Two rasters decoded from the same bytes carry the same pixel grid.
pub proof fn lemma_decode_unique(t1: Raster, t2: Raster, data: Seq<u8>)
    requires
        is_decode_of(t1, data),
        is_decode_of(t2, data),
    ensures
        t1.width == t2.width,
        t1.height == t2.height,
        t1.px@ == t2.px@,
{
    assert forall|k: int| 0 <= k < t1.px@.len() implies t1.px@[k] == t2.px@[k] by {
        assert(t1.px@[k] == px_from_rgba(decoded(data).2, k));
        assert(t2.px@[k] == px_from_rgba(decoded(data).2, k));
    }
    assert(t1.px@ =~= t2.px@);
}

/// Two rasters with one pixel grid show one pixel everywhere.
pub proof fn lemma_pix_of_equal_grids(t1: Raster, t2: Raster, x: int, y: int)
    requires
        t1.width == t2.width,
        t1.px@ == t2.px@,
    ensures
        t1.pix(x, y) == t2.pix(x, y),
{
}

/// Two avatars composed over one pixel grid agree in every pixel and in the
/// color model.
pub proof fn lemma_compose_unique(
    a1: AvatarRaster,
    a2: AvatarRaster,
    t1: Raster,
    t2: Raster,
    helm: bool,
)
    requires
        is_compose_of(a1, t1, helm),
        is_compose_of(a2, t2, helm),
        t1.width == t2.width,
        t1.height == t2.height,
        t1.px@ == t2.px@,
    ensures
        a1.rgba == a2.rgba,
        a1.raster.px@ == a2.raster.px@,
{
    assert forall|x: int, y: int| true implies #[trigger] helm_pix(t1, x, y) == helm_pix(
        t2,
        x,
        y,
    ) by {
        lemma_pix_of_equal_grids(t1, t2, 40 + x, 8 + y);
    }
    assert(helm_retains_alpha(t1) == helm_retains_alpha(t2)) by {
        if helm_retains_alpha(t1) {
            let (x, y) = choose|x: int, y: int|
                0 <= x < 8 && 0 <= y < 8 && (#[trigger] helm_pix(t1, x, y)).a != 0 && helm_pix(
                    t1,
                    x,
                    y,
                ).a != 255;
            assert(helm_pix(t2, x, y).a != 0 && helm_pix(t2, x, y).a != 255);
            assert(helm_retains_alpha(t2));
        }
        if helm_retains_alpha(t2) {
            let (x, y) = choose|x: int, y: int|
                0 <= x < 8 && 0 <= y < 8 && (#[trigger] helm_pix(t2, x, y)).a != 0 && helm_pix(
                    t2,
                    x,
                    y,
                ).a != 255;
            assert(helm_pix(t1, x, y).a != 0 && helm_pix(t1, x, y).a != 255);
            assert(helm_retains_alpha(t1));
        }
    }
    assert forall|i: int| 0 <= i < a1.raster.px@.len() implies a1.raster.px@[i]
        == a2.raster.px@[i] by {
        let y = i / 8;
        let x = i % 8;
        assert(0 <= x < 8 && 0 <= y < 8);
        assert(i == y * 8 + x);
        lemma_pix_of_equal_grids(t1, t2, 8 + x, 8 + y);
        lemma_pix_of_equal_grids(t1, t2, 40 + x, 8 + y);
        assert(a1.raster.pix(x, y) == compose_pix(t1, helm, x, y));
        assert(a2.raster.pix(x, y) == compose_pix(t2, helm, x, y));
    }
    assert(a1.raster.px@ =~= a2.raster.px@);
}

/// Two nearest-neighbor resizes of one pixel grid to one size agree in
/// every pixel.
pub proof fn lemma_resize_unique(r1: Raster, r2: Raster, i1: Raster, i2: Raster, size: int)
    requires
        is_resize_of(r1, i1, size),
        is_resize_of(r2, i2, size),
        1 <= size,
        i1.width == i2.width,
        i1.height == i2.height,
        i1.px@ == i2.px@,
    ensures
        r1.px@ == r2.px@,
{
    assert forall|i: int| 0 <= i < r1.px@.len() implies r1.px@[i] == r2.px@[i] by {
        let y = i / size;
        let x = i % size;
        vstd::arithmetic::div_mod::lemma_fundamental_div_mod(i, size);
        vstd::arithmetic::div_mod::lemma_mod_bound(i, size);
        assert(0 <= x < size);
        assert(i < size * size) by (nonlinear_arith)
            requires
                i < r1.px@.len(),
                r1.px@.len() == size * size,
        ;
        assert(0 <= y < size) by (nonlinear_arith)
            requires
                i == size * y + x,
                0 <= x < size,
                0 <= i < size * size,
        ;
        lemma_pix_of_equal_grids(
            i1,
            i2,
            (x * i1.width) / size,
            (y * i1.height) / size,
        );
        assert(r1.pix(x, y) == r2.pix(x, y));
        assert(i == y * size + x) by (nonlinear_arith)
            requires
                i == size * y + x,
        ;
    }
    assert(r1.px@ =~= r2.px@);
}

/// Rendering is deterministic: any two renders of the same texture bytes at
/// the same size and helm flag produce identical response bytes, identical
/// base encodings and one color model.  Concurrent misses for one key
/// therefore only overwrite a cache entry with the same value, so
/// last-write-wins needs no coordination.
pub proof fn lemma_avatar_render_deterministic(
    texture: Seq<u8>,
    size: int,
    helm: bool,
    body1: Seq<u8>,
    base1: Seq<u8>,
    rgba1: bool,
    body2: Seq<u8>,
    base2: Seq<u8>,
    rgba2: bool,
)
    requires
        is_avatar_render(texture, size, helm, body1, base1, rgba1),
        is_avatar_render(texture, size, helm, body2, base2, rgba2),
        1 <= size,
    ensures
        body1 == body2,
        base1 == base2,
        rgba1 == rgba2,
{
    let (t1, a1) = choose|t: Raster, a: AvatarRaster|
        {
            &&& #[trigger] is_decode_of(t, texture)
            &&& t.width == 64
            &&& t.height == 64
            &&& #[trigger] is_compose_of(a, t, helm)
            &&& rgba1 == a.rgba
            &&& base1 == encoded_spec(a.raster, a.rgba)
            &&& if size == 8 {
                body1 == base1
            } else {
                exists|rz: Raster|
                    #[trigger] is_resize_of(rz, a.raster, size) && body1 == encoded_spec(
                        rz,
                        a.rgba,
                    )
            }
        };
    let (t2, a2) = choose|t: Raster, a: AvatarRaster|
        {
            &&& #[trigger] is_decode_of(t, texture)
            &&& t.width == 64
            &&& t.height == 64
            &&& #[trigger] is_compose_of(a, t, helm)
            &&& rgba2 == a.rgba
            &&& base2 == encoded_spec(a.raster, a.rgba)
            &&& if size == 8 {
                body2 == base2
            } else {
                exists|rz: Raster|
                    #[trigger] is_resize_of(rz, a.raster, size) && body2 == encoded_spec(
                        rz,
                        a.rgba,
                    )
            }
        };
    lemma_decode_unique(t1, t2, texture);
    lemma_compose_unique(a1, a2, t1, t2, helm);
    assert(base1 == base2);
    if size == 8 {
    } else {
        let rz1 = choose|rz: Raster|
            #[trigger] is_resize_of(rz, a1.raster, size) && body1 == encoded_spec(rz, a1.rgba);
        let rz2 = choose|rz: Raster|
            #[trigger] is_resize_of(rz, a2.raster, size) && body2 == encoded_spec(rz, a2.rgba);
        lemma_resize_unique(rz1, rz2, a1.raster, a2.raster, size);
        assert(rz1.width == rz2.width && rz1.height == rz2.height);
        assert(body1 == body2);
    }
}

/// The view of an optional byte buffer.
pub open spec fn opt_bytes_view(v: Option<Vec<u8>>) -> Option<Seq<u8>> {
    match v {
        Some(b) => Some(b@),
        None => None,
    }
}

/// Start an avatar request: reject an invalid size, derive the cache key of
/// an already-stable identifier, or send a display name to the directory.
pub fn begin(token: UuidOrString, size: u32, helm: bool) -> (r: AvatarStep)
    ensures
        !avatar_size_ok(size) ==> (r matches AvatarStep::Fail { status, message } && status == 400
            && message@ == msg_bad_avatar_size()),
        avatar_size_ok(size) ==> match token {
            UuidOrString::Uuid(id) => r matches AvatarStep::NeedCache { req, key } && req.id == id
                && req.size == size && req.helm == helm && key@ == cache_key_spec(id, helm),
            UuidOrString::Name(name) => r matches AvatarStep::NeedResolve {
                name: n,
                size: s,
                helm: h,
            } && n@ == name@ && s == size && h == helm,
        },
{
    if !valid_avatar_size(size) {
        return AvatarStep::Fail {
            status: RenderError::Validation.status_code(),
            message: String::from_str("Size must be between 8 and 512, and divisible by 8."),
        };
    }
    match token {
        UuidOrString::Uuid(id) => {
            let key = get_id(&id, helm);
            AvatarStep::NeedCache { req: AvatarRequest { id, size, helm }, key }
        },
        UuidOrString::Name(name) => AvatarStep::NeedResolve { name, size, helm },
    }
}

/// Take the directory's answer for a display name: no answer, an answer in
/// no identifier form, or the all-zero sentinel all mean the user does not
/// exist; anything else carries on to the cache.
pub fn resolved(outcome: Option<String>, size: u32, helm: bool) -> (r: AvatarStep)
    ensures
        match outcome {
            Some(s) => match resolved_id(s@) {
                Some(id) => r matches AvatarStep::NeedCache { req, key } && req.id == id
                    && req.size == size && req.helm == helm && key@ == cache_key_spec(id, helm),
                None => r matches AvatarStep::Fail { status, message } && status == 404 && message@
                    == msg_user_not_found(),
            },
            None => r matches AvatarStep::Fail { status, message } && status == 404 && message@
                == msg_user_not_found(),
        },
{
    let not_found = "User not found!";
    match outcome {
        Some(s) => {
            match crate::types::parse_stable_id(s.as_str()) {
                Some(id) => {
                    if id.is_nil() {
                        AvatarStep::Fail {
                            status: RenderError::NotFound.status_code(),
                            message: String::from_str(not_found),
                        }
                    } else {
                        let key = get_id(&id, helm);
                        AvatarStep::NeedCache { req: AvatarRequest { id, size, helm }, key }
                    }
                },
                None => AvatarStep::Fail {
                    status: RenderError::NotFound.status_code(),
                    message: String::from_str(not_found),
                },
            }
        },
        None => AvatarStep::Fail {
            status: RenderError::NotFound.status_code(),
            message: String::from_str(not_found),
        },
    }
}

/// Serve a cache hit: repair the stored bytes, and for the base size answer
/// with them directly; for any other size decode, resize and re-encode.
/// Stored bytes that no longer decode are corruption, answered as a server
/// error.
pub fn render_cached(stored: Vec<u8>, size: u32) -> (r: Result<Vec<u8>, RenderError>)
    requires
        avatar_size_ok(size),
    ensures
        size == 8 ==> (r matches Ok(b) && b@ == bytes::repair_spec(stored@)),
        size != 8 ==> match r {
            Ok(b) => cached_ok(stored@) && is_cached_render(stored@, size as int, b@),
            Err(e) => !cached_ok(stored@) && e == RenderError::CacheCorruption,
        },
{
    let repaired = bytes::repair(stored);
    if size == 8 {
        return Ok(repaired);
    }
    match load_raster(&repaired) {
        Some(ra) => {
            let rz = resize(&ra, size as usize);
            let body = encode_png(&rz, false);
            proof {
                assert(is_decode_of(ra, bytes::repair_spec(stored@)));
                assert(is_resize_of(rz, ra, size as int));
            }
            Ok(body)
        },
        None => Err(RenderError::CacheCorruption),
    }
}

/// Move past the cache: a hit is rendered and answered at once; a miss
/// sends the request on to the identity directory for its profile.
pub fn cache_checked(req: AvatarRequest, key: String, stored: Option<Vec<u8>>) -> (r: AvatarStep)
    requires
        avatar_size_ok(req.size),
    ensures
        match stored_hit(opt_bytes_view(stored)) {
            None => r matches AvatarStep::NeedProfile { req: q, key: k } && q == req && k@ == key@,
            Some(b) => {
                if req.size == 8 {
                    r matches AvatarStep::Respond { body } && body@ == bytes::repair_spec(b)
                } else if cached_ok(b) {
                    r matches AvatarStep::Respond { body } && is_cached_render(
                        b,
                        req.size as int,
                        body@,
                    )
                } else {
                    r matches AvatarStep::Fail { status, message } && status == 500 && message@
                        == msg_cache_corrupt()
                }
            },
        },
{
    match interpret_stored(stored) {
        None => AvatarStep::NeedProfile { req, key },
        Some(b) => {
            match render_cached(b, req.size) {
                Ok(body) => AvatarStep::Respond { body },
                Err(e) => AvatarStep::Fail {
                    status: e.status_code(),
                    message: String::from_str("Error loading avatar from cache!"),
                },
            }
        },
    }
}

/// Take the profile answer: a missing profile or property is a missing
/// skin; otherwise the property value is decoded into the texture URL, and
/// a payload that does not decode is a missing skin too.
pub fn profile_received(req: AvatarRequest, key: String, property_value: Option<String>) -> (r:
    AvatarStep)
    ensures
        property_value is None ==> (r matches AvatarStep::Fail { status, message } && status == 404
            && message@ == msg_skin_not_found()),
        property_value matches Some(v) ==> (crate::mojang::descriptor_available(v@) ==> (
        r matches AvatarStep::NeedTexture { req: q, key: k, url } && q == req && k@ == key@ && url@
            == crate::mojang::descriptor_url(v@))),
        property_value matches Some(v) ==> (!crate::mojang::descriptor_available(v@) ==> (
        r matches AvatarStep::Fail { status, message } && status == 404 && message@
            == msg_skin_not_found())),
{
    match property_value {
        Some(v) => {
            match crate::mojang::decode_texture_url(v.as_str()) {
                Ok(url) => AvatarStep::NeedTexture { req, key, url },
                Err(_) => AvatarStep::Fail {
                    status: RenderError::NotFound.status_code(),
                    message: String::from_str("Skin not found!"),
                },
            }
        },
        None => AvatarStep::Fail {
            status: RenderError::NotFound.status_code(),
            message: String::from_str("Skin not found!"),
        },
    }
}

/// A freshly rendered avatar: the bytes answered to the client, the base
/// encoding the cache write is derived from, and the color model the
/// composition chose.
pub struct RenderedAvatar {
    pub body: Vec<u8>,
    pub base: Vec<u8>,
    pub rgba: bool,
}

/// Render an avatar from downloaded texture bytes: decode the 64-by-64
/// texture, compose the base raster, encode it, and encode the response at
/// the requested size.  Texture bytes that do not decode to the fixed
/// source dimensions are an upstream failure.
pub fn render_avatar_from_texture(texture: Vec<u8>, size: u32, helm: bool) -> (r: Result<
    RenderedAvatar,
    RenderError,
>)
    requires
        avatar_size_ok(size),
    ensures
        match r {
            Ok(out) => texture_ok(texture@) && is_avatar_render(
                texture@,
                size as int,
                helm,
                out.body@,
                out.base@,
                out.rgba,
            ),
            Err(e) => !texture_ok(texture@) && e == RenderError::Upstream,
        },
        r matches Ok(out) ==> (!out.rgba ==> bytes::has_canonical_header(out.base@)),
        r matches Ok(out) ==> out.base@.len() > bytes::HEADER_LEN,
        r matches Ok(out) ==> (png_decode_of(out.base@) is Some && decoded(out.base@).0 == 8
            && decoded(out.base@).1 == 8),
{
    let t = match load_raster(&texture) {
        Some(t) => t,
        None => {
            return Err(RenderError::Upstream);
        },
    };
    if t.width != 64 || t.height != 64 {
        return Err(RenderError::Upstream);
    }
    let a = compose(&t, helm);
    let base = encode_png(&a.raster, a.rgba);
    proof {
        assert(is_decode_of(t, texture@));
        assert(is_compose_of(a, t, helm));
    }
    if size == 8 {
        let body = encode_png(&a.raster, a.rgba);
        let rgba = a.rgba;
        proof {
            assert(is_avatar_render(texture@, size as int, helm, body@, base@, rgba));
        }
        Ok(RenderedAvatar { body, base, rgba })
    } else {
        let rz = resize(&a.raster, size as usize);
        let body = encode_png(&rz, a.rgba);
        let rgba = a.rgba;
        proof {
            assert(is_resize_of(rz, a.raster, size as int));
            assert(is_avatar_render(texture@, size as int, helm, body@, base@, rgba));
        }
        Ok(RenderedAvatar { body, base, rgba })
    }
}

/// What the miss path answers with: the next step, the pending cache write,
/// and — as ghost witnesses for the contract — the base encoding and color
/// model the render chose.
pub struct TextureOutcome {
    pub step: AvatarStep,
    pub write: Option<CacheWrite>,
    pub base: Ghost<Seq<u8>>,
    pub rgba: Ghost<bool>,
}

/// Take the downloaded texture: render it, answer the client, and hand back
/// the cache write of the stripped base encoding.  The write is present
/// whenever the base render is in the default color model — an RGBA base
/// cannot carry the canonical header and is served uncached.  Cache
/// population is the caller's to perform after answering; its failure never
/// reaches the client.
pub fn texture_received(req: AvatarRequest, key: String, texture: Option<Vec<u8>>) -> (r:
    TextureOutcome)
    requires
        avatar_size_ok(req.size),
    ensures
        texture is None ==> (r.step matches AvatarStep::Fail { status, message } && status == 404
            && message@ == msg_skin_not_found() && r.write is None),
        texture matches Some(t) ==> (!texture_ok(t@) ==> (r.step matches AvatarStep::Fail {
            status,
            message,
        } && status == 500 && message@ == msg_texture_decode() && r.write is None)),
        texture matches Some(t) ==> (texture_ok(t@) ==> (r.step matches AvatarStep::Respond { body }
            && is_avatar_render(t@, req.size as int, req.helm, body@, r.base@, r.rgba@) && match r
            .write {
            Some(wr) => {
                &&& bytes::has_canonical_header(r.base@)
                &&& wr.key@ == key@
                &&& wr.value@ == bytes::strip_spec(r.base@)
                &&& wr.ttl_seconds == AVATAR_CACHE_TTL_SECONDS
                &&& wr.value@.len() > 0
                &&& bytes::repair_spec(wr.value@) == r.base@
                &&& cached_ok(wr.value@)
            },
            None => r.rgba@,
        })),
{
    let t = match texture {
        Some(t) => t,
        None => {
            return TextureOutcome {
                step: AvatarStep::Fail {
                    status: RenderError::NotFound.status_code(),
                    message: String::from_str("Skin not found!"),
                },
                write: None,
                base: Ghost(Seq::empty()),
                rgba: Ghost(false),
            };
        },
    };
    let ghost tv = t@;
    match render_avatar_from_texture(t, req.size, req.helm) {
        Ok(out) => {
            let ghost base_ghost = out.base@;
            let ghost rgba_ghost = out.rgba;
            let write = set_avatar_cache(out.base, key);
            proof {
                if write is None {
                    assert(!bytes::has_canonical_header(base_ghost));
                    assert(rgba_ghost);
                } else {
                    bytes::lemma_repair_strip_round_trip(base_ghost);
                }
            }
            TextureOutcome {
                step: AvatarStep::Respond { body: out.body },
                write,
                base: Ghost(base_ghost),
                rgba: Ghost(rgba_ghost),
            }
        },
        Err(e) => {
            TextureOutcome {
                step: AvatarStep::Fail {
                    status: e.status_code(),
                    message: String::from_str("Error decoding skin texture!"),
                },
                write: None,
                base: Ghost(Seq::empty()),
                rgba: Ghost(false),
            }
        },
    }
}

/// Start a whole-skin request: reject an invalid size, pass a stable
/// identifier straight to the directory, or resolve a display name first.
pub fn skin_begin(token: UuidOrString, size: u32) -> (r: SkinStep)
    ensures
        !skin_size_ok(size) ==> (r matches SkinStep::Fail { status, message } && status == 400
            && message@ == msg_bad_skin_size()),
        skin_size_ok(size) ==> match token {
            UuidOrString::Uuid(id) => r matches SkinStep::NeedProfile { id: i, size: s } && i == id
                && s == size,
            UuidOrString::Name(name) => r matches SkinStep::NeedResolve { name: n, size: s } && n@
                == name@ && s == size,
        },
{
    if !valid_skin_size(size) {
        return SkinStep::Fail {
            status: RenderError::Validation.status_code(),
            message: String::from_str("Size must be between 64 and 512, and divisible by 64."),
        };
    }
    match token {
        UuidOrString::Uuid(id) => SkinStep::NeedProfile { id, size },
        UuidOrString::Name(name) => SkinStep::NeedResolve { name, size },
    }
}

/// Take the directory's answer for a display name on the whole-skin path.
pub fn skin_resolved(outcome: Option<String>, size: u32) -> (r: SkinStep)
    ensures
        match outcome {
            Some(s) => match resolved_id(s@) {
                Some(id) => r matches SkinStep::NeedProfile { id: i, size: s2 } && i == id && s2
                    == size,
                None => r matches SkinStep::Fail { status, message } && status == 404 && message@
                    == msg_user_not_found(),
            },
            None => r matches SkinStep::Fail { status, message } && status == 404 && message@
                == msg_user_not_found(),
        },
{
    let not_found = "User not found!";
    match outcome {
        Some(s) => {
            match crate::types::parse_stable_id(s.as_str()) {
                Some(id) => {
                    if id.is_nil() {
                        SkinStep::Fail {
                            status: RenderError::NotFound.status_code(),
                            message: String::from_str(not_found),
                        }
                    } else {
                        SkinStep::NeedProfile { id, size }
                    }
                },
                None => SkinStep::Fail {
                    status: RenderError::NotFound.status_code(),
                    message: String::from_str(not_found),
                },
            }
        },
        None => SkinStep::Fail {
            status: RenderError::NotFound.status_code(),
            message: String::from_str(not_found),
        },
    }
}

/// Take the profile answer on the whole-skin path.
pub fn skin_profile_received(size: u32, property_value: Option<String>) -> (r: SkinStep)
    ensures
        property_value is None ==> (r matches SkinStep::Fail { status, message } && status == 404
            && message@ == msg_skin_not_found()),
        property_value matches Some(v) ==> (crate::mojang::descriptor_available(v@) ==> (
        r matches SkinStep::NeedTexture { size: s, url } && s == size && url@
            == crate::mojang::descriptor_url(v@))),
        property_value matches Some(v) ==> (!crate::mojang::descriptor_available(v@) ==> (
        r matches SkinStep::Fail { status, message } && status == 404 && message@
            == msg_skin_not_found())),
{
    match property_value {
        Some(v) => {
            match crate::mojang::decode_texture_url(v.as_str()) {
                Ok(url) => SkinStep::NeedTexture { size, url },
                Err(_) => SkinStep::Fail {
                    status: RenderError::NotFound.status_code(),
                    message: String::from_str("Skin not found!"),
                },
            }
        },
        None => SkinStep::Fail {
            status: RenderError::NotFound.status_code(),
            message: String::from_str("Skin not found!"),
        },
    }
}

/// Render a whole skin from downloaded texture bytes: decode the 64-by-64
/// texture, resize it when a larger size was asked, and encode it RGB.
pub fn render_skin(texture: Vec<u8>, size: u32) -> (r: Result<Vec<u8>, RenderError>)
    requires
        skin_size_ok(size),
    ensures
        match r {
            Ok(b) => texture_ok(texture@) && is_skin_render(texture@, size as int, b@),
            Err(e) => !texture_ok(texture@) && e == RenderError::Upstream,
        },
{
    let t = match load_raster(&texture) {
        Some(t) => t,
        None => {
            return Err(RenderError::Upstream);
        },
    };
    if t.width != 64 || t.height != 64 {
        return Err(RenderError::Upstream);
    }
    proof {
        assert(is_decode_of(t, texture@));
    }
    if size == 64 {
        let body = encode_png(&t, false);
        proof {
            assert(is_skin_render(texture@, size as int, body@));
        }
        Ok(body)
    } else {
        let rz = resize(&t, size as usize);
        let body = encode_png(&rz, false);
        proof {
            assert(is_resize_of(rz, t, size as int));
            assert(is_skin_render(texture@, size as int, body@));
        }
        Ok(body)
    }
}

/// Take the downloaded texture on the whole-skin path and answer.
pub fn skin_texture_received(size: u32, texture: Option<Vec<u8>>) -> (r: SkinStep)
    requires
        skin_size_ok(size),
    ensures
        texture is None ==> (r matches SkinStep::Fail { status, message } && status == 404
            && message@ == msg_skin_not_found()),
        texture matches Some(t) ==> (!texture_ok(t@) ==> (r matches SkinStep::Fail {
            status,
            message,
        } && status == 500 && message@ == msg_texture_decode())),
        texture matches Some(t) ==> (texture_ok(t@) ==> (r matches SkinStep::Respond { body }
            && is_skin_render(t@, size as int, body@))),
{
    let t = match texture {
        Some(t) => t,
        None => {
            return SkinStep::Fail {
                status: RenderError::NotFound.status_code(),
                message: String::from_str("Skin not found!"),
            };
        },
    };
    match render_skin(t, size) {
        Ok(body) => SkinStep::Respond { body },
        Err(e) => SkinStep::Fail {
            status: e.status_code(),
            message: String::from_str("Error decoding skin texture!"),
        },
    }
}

/// Whether a presented secret opens the administrative cache flush.
pub fn flush_allowed(given: &str, expected: &str) -> (r: bool)
    ensures
        r == (given@ == expected@),
{
    let g = String::from_str(given);
    let e = String::from_str(expected);
    g == e
}

} // verus!
