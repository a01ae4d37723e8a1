//! Data model: stable identifiers, user tokens, profile records, and errors.
//!
//! A stable identifier is the durable 128-bit identity key of a user.  Its
//! canonical string form is 32 lowercase hexadecimal digits in five groups
//! separated by hyphens (8-4-4-4-12).  A user token is either such an
//! identifier or a display name; the token is resolved once at the boundary
//! and never re-parsed downstream.
use vstd::prelude::*;

verus! {

/// Powers of sixteen, for bounding hexadecimal values.
pub open spec fn pow16(k: int) -> int
    decreases k,
{
    if k <= 0 {
        1
    } else {
        16 * pow16(k - 1)
    }
}

pub proof fn lemma_pow16_monotonic(a: int, b: int)
    requires
        a <= b,
    ensures
        pow16(a) <= pow16(b),
    decreases b - a,
{
    if a < b {
        lemma_pow16_monotonic(a, b - 1);
        lemma_pow16_positive(b - 1);
    }
}

pub proof fn lemma_pow16_positive(k: int)
    ensures
        pow16(k) >= 1,
    decreases k,
{
    if k > 0 {
        lemma_pow16_positive(k - 1);
    }
}

/// `c` is an ASCII hexadecimal digit, either case.
pub open spec fn is_hex_digit(c: char) -> bool {
    (48 <= c as int && c as int <= 57)  // '0' ..= '9'
    || (97 <= c as int && c as int <= 102)  // 'a' ..= 'f'
    || (65 <= c as int && c as int <= 70)  // 'A' ..= 'F'
}

/// The numeric value of a hexadecimal digit; digits of either case are
/// accepted, and any other character counts as zero, so the result always
/// lies below sixteen.
pub open spec fn hex_digit_val(c: char) -> int {
    if 48 <= c as int && c as int <= 57 {
        c as int - 48
    } else if 97 <= c as int && c as int <= 102 {
        c as int - 97 + 10
    } else if 65 <= c as int && c as int <= 70 {
        c as int - 65 + 10
    } else {
        0
    }
}

/// The lowercase hexadecimal digit character for a value below sixteen.
pub open spec fn hex_char(d: int) -> char {
    if d == 0 {
        '0'
    } else if d == 1 {
        '1'
    } else if d == 2 {
        '2'
    } else if d == 3 {
        '3'
    } else if d == 4 {
        '4'
    } else if d == 5 {
        '5'
    } else if d == 6 {
        '6'
    } else if d == 7 {
        '7'
    } else if d == 8 {
        '8'
    } else if d == 9 {
        '9'
    } else if d == 10 {
        'a'
    } else if d == 11 {
        'b'
    } else if d == 12 {
        'c'
    } else if d == 13 {
        'd'
    } else if d == 14 {
        'e'
    } else {
        'f'
    }
}

/// The value of a big-endian sequence of hexadecimal digit characters.
pub open spec fn hex_value(s: Seq<char>) -> int
    decreases s.len(),
{
    if s.len() == 0 {
        0
    } else {
        16 * hex_value(s.drop_last()) + hex_digit_val(s.last())
    }
}

pub proof fn lemma_hex_value_bounds(s: Seq<char>)
    ensures
        0 <= hex_value(s) < pow16(s.len() as int),
    decreases s.len(),
{
    if s.len() > 0 {
        lemma_hex_value_bounds(s.drop_last());
    }
}

/// The last `n` hexadecimal digits of `v`, most significant first, in
/// lowercase.
pub open spec fn hex_seq(v: int, n: nat) -> Seq<char>
    decreases n,
{
    if n == 0 {
        Seq::empty()
    } else {
        hex_seq(v / 16, (n - 1) as nat).push(hex_char(v % 16))
    }
}

/// The durable, canonical identity key for a user: a 128-bit identifier held
/// as its high and low 64-bit halves.
#[derive(Clone, Copy, PartialEq, Eq, Structural, Debug)]
pub struct StableId {
    pub hi: u64,
    pub lo: u64,
}

/// The canonical string form of a stable identifier: 32 lowercase
/// hexadecimal digits in groups of 8, 4, 4, 4 and 12, separated by hyphens.
pub open spec fn canonical_id_seq(id: StableId) -> Seq<char> {
    hex_seq(id.hi as int / 0x100000000, 8) + seq!['-'] + hex_seq(id.hi as int / 0x10000, 4)
        + seq!['-'] + hex_seq(id.hi as int, 4) + seq!['-'] + hex_seq(
        id.lo as int / 0x1000000000000,
        4,
    ) + seq!['-'] + hex_seq(id.lo as int, 12)
}

impl StableId {
    /// The sentinel all-zero identifier, which no real user carries.
    pub open spec fn is_nil_spec(self) -> bool {
        self.hi == 0 && self.lo == 0
    }

    pub fn is_nil(&self) -> (r: bool)
        ensures
            r == self.is_nil_spec(),
    {
        self.hi == 0 && self.lo == 0
    }
}

/// A single lowercase hexadecimal digit as a string slice.
fn hex_char_str(d: u8) -> (r: &'static str)
    requires
        d < 16,
    ensures
        r@ =~= seq![hex_char(d as int)],
{
    proof {
        reveal_strlit("0");
        reveal_strlit("1");
        reveal_strlit("2");
        reveal_strlit("3");
        reveal_strlit("4");
        reveal_strlit("5");
        reveal_strlit("6");
        reveal_strlit("7");
        reveal_strlit("8");
        reveal_strlit("9");
        reveal_strlit("a");
        reveal_strlit("b");
        reveal_strlit("c");
        reveal_strlit("d");
        reveal_strlit("e");
        reveal_strlit("f");
    }
    match d {
        0 => "0",
        1 => "1",
        2 => "2",
        3 => "3",
        4 => "4",
        5 => "5",
        6 => "6",
        7 => "7",
        8 => "8",
        9 => "9",
        10 => "a",
        11 => "b",
        12 => "c",
        13 => "d",
        14 => "e",
        _ => "f",
    }
}

/// The last `n` hexadecimal digits of `v` as a lowercase string, most
/// significant first.
pub fn hex_string(v: u64, n: usize) -> (r: String)
    requires
        n <= 16,
    ensures
        r@ == hex_seq(v as int, n as nat),
    decreases n,
{
    if n == 0 {
        let s = String::new();
        proof {
            assert(s@ =~= hex_seq(v as int, 0));
        }
        s
    } else {
        let mut s = hex_string(v / 16, n - 1);
        let d: u8 = (v % 16) as u8;
        s.append(hex_char_str(d));
        proof {
            assert(v as int / 16 == (v / 16) as int);
            assert(s@ =~= hex_seq(v as int, n as nat));
        }
        s
    }
}

/// The canonical hyphenated string form of a stable identifier.
pub fn canonical_string(id: &StableId) -> (r: String)
    ensures
        r@ == canonical_id_seq(*id),
{
    proof {
        reveal_strlit("-");
    }
    let mut s = hex_string(id.hi / 0x100000000, 8);
    s.append("-");
    s.append(hex_string(id.hi / 0x10000, 4).as_str());
    s.append("-");
    s.append(hex_string(id.hi, 4).as_str());
    s.append("-");
    s.append(hex_string(id.lo / 0x1000000000000, 4).as_str());
    s.append("-");
    s.append(hex_string(id.lo, 12).as_str());
    proof {
        assert(s@ =~= canonical_id_seq(*id));
    }
    s
}

/// The 32-digit form of an identifier string: hexadecimal digits only.
pub open spec fn is_simple_form(s: Seq<char>) -> bool {
    s.len() == 32 && (forall|i: int| 0 <= i < 32 ==> is_hex_digit(#[trigger] s[i]))
}

/// One of the four hyphen positions of the canonical hyphenated form.
pub open spec fn is_hyphen_pos(i: int) -> bool {
    i == 8 || i == 13 || i == 18 || i == 23
}

/// The hyphenated form of an identifier string: 36 characters, hyphens at
/// the four canonical positions, hexadecimal digits everywhere else.
pub open spec fn is_hyphenated_form(s: Seq<char>) -> bool {
    s.len() == 36 && (forall|i: int|
        0 <= i < 36 && is_hyphen_pos(i) ==> #[trigger] s[i] == '-') && (forall|i: int|
        0 <= i < 36 && !is_hyphen_pos(i) ==> is_hex_digit(#[trigger] s[i]))
}

/// The position in the hyphenated form of the `k`-th digit.
pub open spec fn digit_pos(k: int) -> int {
    if k < 8 {
        k
    } else if k < 12 {
        k + 1
    } else if k < 16 {
        k + 2
    } else if k < 20 {
        k + 3
    } else {
        k + 4
    }
}

/// The 32 digits of an identifier string, with any hyphens removed.
pub open spec fn digits_of(s: Seq<char>) -> Seq<char> {
    if s.len() == 36 {
        Seq::new(32, |k: int| s[digit_pos(k)])
    } else {
        s
    }
}

/// The stable identifier that a digit sequence denotes: the first sixteen
/// digits form the high half, the last sixteen the low half.
pub open spec fn id_of_digits(d: Seq<char>) -> StableId {
    StableId { hi: hex_value(d.take(16)) as u64, lo: hex_value(d.skip(16)) as u64 }
}

/// The value of the hexadecimal digits `ds[from .. to]`.
fn hex_value_of_range(ds: &Vec<char>, from: usize, to: usize) -> (r: u64)
    requires
        from <= to <= ds@.len(),
        to - from <= 16,
        forall|k: int| from <= k < to ==> is_hex_digit(#[trigger] ds@[k]),
    ensures
        r == hex_value(ds@.subrange(from as int, to as int)),
{
    proof {
        assert(pow16(0) == 1);
        assert(pow16(1) == 16);
        assert(pow16(2) == 256);
        assert(pow16(3) == 4096);
        assert(pow16(4) == 0x10000);
        assert(pow16(5) == 0x100000);
        assert(pow16(6) == 0x1000000);
        assert(pow16(7) == 0x10000000);
        assert(pow16(8) == 0x100000000);
        assert(pow16(9) == 0x1000000000);
        assert(pow16(10) == 0x10000000000);
        assert(pow16(11) == 0x100000000000);
        assert(pow16(12) == 0x1000000000000);
        assert(pow16(13) == 0x10000000000000);
        assert(pow16(14) == 0x100000000000000);
        assert(pow16(15) == 0x1000000000000000);
        assert(pow16(16) == 0x10000000000000000);
    }
    let mut acc: u64 = 0;
    let mut k: usize = from;
    while k < to
        invariant
            from <= k <= to <= ds@.len(),
            to - from <= 16,
            forall|m: int| from <= m < to ==> is_hex_digit(#[trigger] ds@[m]),
            acc == hex_value(ds@.subrange(from as int, k as int)),
            pow16(16) == 0x10000000000000000,
        decreases to - k,
    {
        let c = ds[k];
        let u: u32 = c as u32;
        let d: u8 = if 48 <= u && u <= 57 {
            (u - 48) as u8
        } else if 97 <= u && u <= 102 {
            (u - 97 + 10) as u8
        } else if 65 <= u && u <= 70 {
            (u - 65 + 10) as u8
        } else {
            0
        };
        proof {
            assert(is_hex_digit(c));
            assert(u as int == c as int);
            assert(d as int == hex_digit_val(c));
            lemma_hex_value_bounds(ds@.subrange(from as int, k as int));
            lemma_pow16_monotonic(k - from, 15);
            assert(acc <= pow16(15) - 1);
        }
        acc = acc * 16 + (d as u64);
        proof {
            assert(ds@.subrange(from as int, k + 1).drop_last() =~= ds@.subrange(
                from as int,
                k as int,
            ));
            assert(ds@.subrange(from as int, k + 1).last() == c);
        }
        k += 1;
    }
    acc
}

/// Parse an identifier string in either the 32-digit or the canonical
/// hyphenated form.  Returns `None` for every string in neither form.
pub fn parse_stable_id(s: &str) -> (r: Option<StableId>)
    ensures
        r is Some <==> (is_simple_form(s@) || is_hyphenated_form(s@)),
        r is Some ==> r->0 == id_of_digits(digits_of(s@)),
{
    let n = s.unicode_len();
    if n != 32 && n != 36 {
        return None;
    }
    let mut ds: Vec<char> = Vec::new();
    let mut i: usize = 0;
    while i < n
        invariant
            0 <= i <= n,
            n == s@.len(),
            n == 32 || n == 36,
            n == 32 ==> ds@.len() == i,
            n == 32 ==> forall|k: int| 0 <= k < i ==> #[trigger] ds@[k] == s@[k],
            n == 36 ==> forall|j: int| 0 <= j < i && is_hyphen_pos(j) ==> #[trigger] s@[j] == '-',
            n == 36 ==> ds@.len() == (if i <= 8 {
                i as int
            } else if i <= 13 {
                i - 1
            } else if i <= 18 {
                i - 2
            } else if i <= 23 {
                i - 3
            } else {
                i - 4
            }),
            n == 36 ==> forall|k: int|
                0 <= k < ds@.len() ==> digit_pos(k) < i && #[trigger] ds@[k] == s@[digit_pos(k)],
            forall|k: int| 0 <= k < ds@.len() ==> is_hex_digit(#[trigger] ds@[k]),
        decreases n - i,
    {
        let c = s.get_char(i);
        let u: u32 = c as u32;
        let hyphen_pos: bool = n == 36 && (i == 8 || i == 13 || i == 18 || i == 23);
        if hyphen_pos {
            if u != 45 {
                proof {
                    assert(s@[i as int] != '-');
                    assert(!is_hyphenated_form(s@));
                    assert(!is_simple_form(s@));
                }
                return None;
            }
        } else {
            let is_hex: bool = (48 <= u && u <= 57) || (97 <= u && u <= 102) || (65 <= u && u
                <= 70);
            if !is_hex {
                proof {
                    assert(!is_hex_digit(s@[i as int]));
                    assert(!is_simple_form(s@));
                    assert(!is_hyphenated_form(s@));
                }
                return None;
            }
            ds.push(c);
        }
        i += 1;
    }
    proof {
        if n == 32 {
            assert forall|k: int| 0 <= k < 32 implies is_hex_digit(#[trigger] s@[k]) by {
                assert(ds@[k] == s@[k]);
                assert(is_hex_digit(ds@[k]));
            }
            assert(is_simple_form(s@));
            assert(ds@ =~= digits_of(s@));
        } else {
            assert forall|j: int| 0 <= j < 36 && !is_hyphen_pos(j) implies is_hex_digit(
                #[trigger] s@[j],
            ) by {
                let k: int = if j < 8 {
                    j
                } else if j < 13 {
                    j - 1
                } else if j < 18 {
                    j - 2
                } else if j < 23 {
                    j - 3
                } else {
                    j - 4
                };
                assert(digit_pos(k) == j);
                assert(ds@[k] == s@[j]);
                assert(is_hex_digit(ds@[k]));
            }
            assert(is_hyphenated_form(s@));
            assert(ds@ =~= digits_of(s@));
        }
        assert(ds@.len() == 32);
    }
    let hi = hex_value_of_range(&ds, 0, 16);
    let lo = hex_value_of_range(&ds, 16, 32);
    proof {
        assert(ds@.subrange(0, 16) =~= digits_of(s@).take(16));
        assert(ds@.subrange(16, 32) =~= digits_of(s@).skip(16));
        lemma_hex_value_bounds(digits_of(s@).take(16));
        lemma_hex_value_bounds(digits_of(s@).skip(16));
    }
    Some(StableId { hi, lo })
}

/// A user token as the request boundary hands it over: either a stable
/// identifier, recognized by its string shape, or a display name.
#[derive(Clone, Debug)]
pub enum UuidOrString {
    Uuid(StableId),
    Name(String),
}

impl UuidOrString {
    /// Resolve the shape of a raw token string once: a string in an
    /// identifier form becomes that identifier, everything else a display
    /// name.
    pub fn from_str(s: &str) -> (r: UuidOrString)
        ensures
            (is_simple_form(s@) || is_hyphenated_form(s@)) ==> r == UuidOrString::Uuid(
                id_of_digits(digits_of(s@)),
            ),
            !(is_simple_form(s@) || is_hyphenated_form(s@)) ==> (r matches UuidOrString::Name(name)
                && name@ == s@),
    {
        match parse_stable_id(s) {
            Some(id) => UuidOrString::Uuid(id),
            None => UuidOrString::Name(s.to_owned()),
        }
    }
}

/// A value that can stand for a cache miss when it carries nothing.
pub trait IsEmpty {
    /// What it means for the value to carry nothing.
    spec fn is_empty_spec(&self) -> bool;

    fn is_empty(&self) -> (r: bool)
        ensures
            r == self.is_empty_spec(),
    ;
}

impl IsEmpty for Vec<u8> {
    open spec fn is_empty_spec(&self) -> bool {
        self@.len() == 0
    }

    fn is_empty(&self) -> (r: bool) {
        self.len() == 0
    }
}

/// The error taxonomy of the pipeline.
#[derive(Clone, Copy, PartialEq, Eq, Structural, Debug)]
pub enum RenderError {
    /// Bad size or flag input; user-correctable.
    Validation,
    /// Unknown identity or missing texture property.
    NotFound,
    /// Directory or texture-host failure, or a malformed upstream payload.
    Upstream,
    /// Stored cache bytes failed to decode after repair.
    CacheCorruption,
    /// The raster could not be encoded.
    Encode,
}

impl RenderError {
    /// The response status code each error maps to.
    pub fn status_code(&self) -> (r: u16)
        ensures
            self is Validation ==> r == 400,
            self is NotFound ==> r == 404,
            (self is Upstream || self is CacheCorruption || self is Encode) ==> r == 500,
    {
        match self {
            RenderError::Validation => 400,
            RenderError::NotFound => 404,
            RenderError::Upstream => 500,
            RenderError::CacheCorruption => 500,
            RenderError::Encode => 500,
        }
    }
}

/// A profile record as the identity directory returns it.
#[derive(Clone, Debug)]
pub struct MojangProfile {
    pub id: String,
    pub name: String,
    pub properties: Option<Vec<Property>>,
}

/// One property of a profile record; the texture descriptor travels in the
/// value of the first property.
#[derive(Clone, Debug)]
pub struct Property {
    pub name: String,
    pub value: String,
    pub signature: Option<String>,
}

/// The decoded texture descriptor carried base64-encoded in a profile
/// property.
#[derive(Clone, Debug)]
pub struct DecodedProperty {
    pub timestamp: i64,
    pub profile_id: String,
    pub profile_name: String,
    pub textures: Textures,
}

/// The texture section of a descriptor: the skin texture, and optionally a
/// cape, which this pipeline does not use.
#[derive(Clone, Debug)]
pub struct Textures {
    pub skin: Skin,
    pub cape: Option<Cape>,
}

/// Where the raw skin texture bytes are served.
#[derive(Clone, Debug)]
pub struct Skin {
    pub url: String,
    pub metadata: Option<Metadata>,
}

/// Optional model metadata of a skin.
#[derive(Clone, Debug)]
pub struct Metadata {
    pub model: String,
}

/// Where a cape texture is served; unused by the avatar pipeline.
#[derive(Clone, Debug)]
pub struct Cape {
    pub url: String,
}

/// The value of the first property of a profile, where the texture
/// descriptor travels.  `None` when the profile carries no property at all.
pub fn first_property_value(profile: &MojangProfile) -> (r: Option<&String>)
    ensures
        match r {
            Some(v) => {
                &&& profile.properties is Some
                &&& profile.properties->0@.len() > 0
                &&& v == &profile.properties->0@[0].value
            },
            None => profile.properties is None || profile.properties->0@.len() == 0,
        },
{
    match &profile.properties {
        Some(props) => {
            if props.len() > 0 {
                Some(&props[0].value)
            } else {
                None
            }
        },
        None => None,
    }
}


/// Reading the digit character of a value below sixteen gives the value
/// back.
pub proof fn lemma_hex_char_val(d: int)
    requires
        0 <= d < 16,
    ensures
        hex_digit_val(hex_char(d)) == d,
        is_hex_digit(hex_char(d)),
{
}

/// Appending one digit multiplies the value by sixteen and adds the digit.
pub proof fn lemma_hex_value_push(s: Seq<char>, c: char)
    ensures
        hex_value(s.push(c)) == 16 * hex_value(s) + hex_digit_val(c),
{
    assert(s.push(c).drop_last() =~= s);
    assert(s.push(c).last() == c);
}

/// Every character of a hexadecimal rendering is a hexadecimal digit.
pub proof fn lemma_hex_seq_digits(v: int, n: nat)
    ensures
        forall|i: int| 0 <= i < hex_seq(v, n).len() ==> is_hex_digit(#[trigger] hex_seq(v, n)[i]),
    decreases n,
{
    if n > 0 {
        lemma_hex_seq_digits(v / 16, (n - 1) as nat);
        vstd::arithmetic::div_mod::lemma_mod_bound(v, 16);
        lemma_hex_char_val(v % 16);
        assert forall|i: int| 0 <= i < hex_seq(v, n).len() implies is_hex_digit(
            #[trigger] hex_seq(v, n)[i],
        ) by {
            if i < hex_seq(v, n).len() - 1 {
                assert(hex_seq(v, n)[i] == hex_seq(v / 16, (n - 1) as nat)[i]);
            } else {
                assert(hex_seq(v, n)[i] == hex_char(v % 16));
            }
        }
    }
}

/// The value of a hexadecimal rendering of a non-negative number is that
/// number, reduced at the rendering's width.
pub proof fn lemma_hex_value_of_hex_seq(v: int, n: nat)
    requires
        0 <= v,
    ensures
        hex_value(hex_seq(v, n)) == v % pow16(n as int),
    decreases n,
{
    if n == 0 {
        vstd::arithmetic::div_mod::lemma_fundamental_div_mod(v, 1);
        vstd::arithmetic::div_mod::lemma_mod_bound(v, 1);
    } else {
        lemma_hex_value_of_hex_seq(v / 16, (n - 1) as nat);
        lemma_hex_value_push(hex_seq(v / 16, (n - 1) as nat), hex_char(v % 16));
        vstd::arithmetic::div_mod::lemma_mod_bound(v, 16);
        lemma_hex_char_val(v % 16);
        lemma_pow16_positive(n - 1);
        vstd::arithmetic::div_mod::lemma_mod_breakdown(v, 16, pow16(n - 1));
    }
}

/// The value of two digit runs side by side.
pub proof fn lemma_hex_value_concat(a: Seq<char>, b: Seq<char>)
    ensures
        hex_value(a + b) == hex_value(a) * pow16(b.len() as int) + hex_value(b),
    decreases b.len(),
{
    if b.len() == 0 {
        assert(a + b =~= a);
    } else {
        lemma_hex_value_concat(a, b.drop_last());
        assert((a + b).drop_last() =~= a + b.drop_last());
        assert((a + b).last() == b.last());
        let k = b.len() - 1;
        assert(16 * (hex_value(a) * pow16(k as int)) == hex_value(a) * (16 * pow16(k as int)))
            by (nonlinear_arith);
    }
}

/// Formatting an identifier canonically and parsing the digits back
/// recovers exactly the identifier: the canonical form is hyphenated, and
/// its digits denote the same value.
pub proof fn lemma_canonical_string_parses_back(id: StableId)
    ensures
        is_hyphenated_form(canonical_id_seq(id)),
        id_of_digits(digits_of(canonical_id_seq(id))) == id,
{
    let hi = id.hi as int;
    let lo = id.lo as int;
    let g1 = hex_seq(hi / 0x100000000, 8);
    let g2 = hex_seq(hi / 0x10000, 4);
    let g3 = hex_seq(hi, 4);
    let g4 = hex_seq(lo / 0x1000000000000, 4);
    let g5 = hex_seq(lo, 12);
    let h = seq!['-'];
    let c = canonical_id_seq(id);
    crate::cache::lemma_hex_seq_len(hi / 0x100000000, 8);
    crate::cache::lemma_hex_seq_len(hi / 0x10000, 4);
    crate::cache::lemma_hex_seq_len(hi, 4);
    crate::cache::lemma_hex_seq_len(lo / 0x1000000000000, 4);
    crate::cache::lemma_hex_seq_len(lo, 12);
    lemma_hex_seq_digits(hi / 0x100000000, 8);
    lemma_hex_seq_digits(hi / 0x10000, 4);
    lemma_hex_seq_digits(hi, 4);
    lemma_hex_seq_digits(lo / 0x1000000000000, 4);
    lemma_hex_seq_digits(lo, 12);
    assert(c.len() == 36);
    assert forall|i: int| 0 <= i < 36 && is_hyphen_pos(i) implies #[trigger] c[i] == '-' by {}
    assert forall|i: int| 0 <= i < 36 && !is_hyphen_pos(i) implies is_hex_digit(#[trigger] c[i]) by {}
    assert(is_hyphenated_form(c));

    let d = digits_of(c);
    let dh = g1 + g2 + g3;
    let dl = g4 + g5;
    assert(d.take(16) =~= dh);
    assert(d.skip(16) =~= dl);

    // the high half
    lemma_hex_value_concat(g1 + g2, g3);
    lemma_hex_value_concat(g1, g2);
    lemma_hex_value_of_hex_seq(hi / 0x100000000, 8);
    lemma_hex_value_of_hex_seq(hi / 0x10000, 4);
    lemma_hex_value_of_hex_seq(hi, 4);
    assert(pow16(0) == 1);
    assert(pow16(1) == 16);
    assert(pow16(2) == 256);
    assert(pow16(3) == 4096);
    assert(pow16(4) == 0x10000);
    assert(pow16(5) == 0x100000);
    assert(pow16(6) == 0x1000000);
    assert(pow16(7) == 0x10000000);
    assert(pow16(8) == 0x100000000);
    assert(pow16(9) == 0x1000000000);
    assert(pow16(10) == 0x10000000000);
    assert(pow16(11) == 0x100000000000);
    assert(pow16(12) == 0x1000000000000);
    vstd::arithmetic::div_mod::lemma_small_mod((hi / 0x100000000) as nat, 0x100000000nat);
    assert(hex_value(g1) == hi / 0x100000000);
    vstd::arithmetic::div_mod::lemma_fundamental_div_mod(hi, 0x100000000);
    vstd::arithmetic::div_mod::lemma_mod_breakdown(hi, 0x10000, 0x10000);
    assert(hex_value(dh) == (hi / 0x100000000 * 0x10000 + (hi / 0x10000) % 0x10000) * 0x10000 + hi
        % 0x10000);
    assert((hi / 0x100000000 * 0x10000 + (hi / 0x10000) % 0x10000) * 0x10000 == hi / 0x100000000
        * 0x100000000 + ((hi / 0x10000) % 0x10000) * 0x10000) by (nonlinear_arith);
    assert(hi % 0x100000000 == 0x10000 * ((hi / 0x10000) % 0x10000) + hi % 0x10000);
    assert(hex_value(dh) == hi);

    // the low half
    lemma_hex_value_concat(g4, g5);
    lemma_hex_value_of_hex_seq(lo / 0x1000000000000, 4);
    lemma_hex_value_of_hex_seq(lo, 12);
    vstd::arithmetic::div_mod::lemma_small_mod((lo / 0x1000000000000) as nat, 0x10000nat);
    vstd::arithmetic::div_mod::lemma_fundamental_div_mod(lo, 0x1000000000000);
    assert(hex_value(dl) == lo / 0x1000000000000 * 0x1000000000000 + lo % 0x1000000000000);
    assert(hex_value(dl) == lo);

    lemma_hex_value_bounds(d.take(16));
    lemma_hex_value_bounds(d.skip(16));
    assert(id_of_digits(d) == id);
}

} // verus!
