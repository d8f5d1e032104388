use crate::text::ascii_chars;
use crate::text::ascii_string;
use crate::text::decimal_text;
use crate::text::lemma_decimal_digits_ascii;
use crate::text::push_decimal;
use vstd::arithmetic::div_mod::lemma_fundamental_div_mod;
use vstd::arithmetic::div_mod::lemma_fundamental_div_mod_converse;
use vstd::prelude::*;
use vstd::std_specs::ops::AddSpecImpl;
use vstd::std_specs::ops::MulSpecImpl;
use vstd::std_specs::ops::SubSpecImpl;

verus! {

/// Largest node coordinate of a map, in either direction.
pub const MAP_LIMIT: i32 = 31000;

/// Largest block coordinate of a map, in either direction.
pub const BLOCK_LIMIT: i32 = 1937;

/// A point or offset in three-dimensional integer space.
#[derive(Clone, Copy, Debug, PartialEq, Eq, Structural)]
pub struct Vec3 {
    pub x: i32,
    pub y: i32,
    pub z: i32,
}

/// `v` normalized into `[-2048, 2048)` modulo 4096.
pub open spec fn wrap_4096(v: int) -> int {
    (v + 2048) % 4096 - 2048
}

/// The x component that a block key stands for.
pub open spec fn key_x(key: int) -> int {
    wrap_4096(key)
}

/// The y component that a block key stands for.
pub open spec fn key_y(key: int) -> int {
    wrap_4096((key - key_x(key)) / 4096)
}

/// The z component that a block key stands for, before it is cut to 32 bits.
pub open spec fn key_z(key: int) -> int {
    ((key - key_x(key)) / 4096 - key_y(key)) / 4096
}

/// The block key of the position `(x, y, z)`.
pub open spec fn block_key_of(x: int, y: int, z: int) -> int {
    x + 4096 * y + 16777216 * z
}

/// The position of the block with the key `key`.
pub open spec fn key_pos(key: i64) -> Vec3 {
    Vec3 { x: key_x(key as int) as i32, y: key_y(key as int) as i32, z: key_z(key as int) as i32 }
}

/// Whether a coordinate can be packed into a block key.
pub open spec fn fits_key(v: int) -> bool {
    -2048 <= v < 2048
}

impl Vec3 {
    pub fn new(x: i32, y: i32, z: i32) -> (r: Self)
        ensures
            r.x == x,
            r.y == y,
            r.z == z,
    {
        Self { x, y, z }
    }

    /// Unpacks a database key into a block position.
    pub fn from_block_key(key: i64) -> (r: Self)
        ensures
            r == key_pos(key),
            r.x == key_x(key as int),
            r.y == key_y(key as int),
            r.z == key_z(key as int) as i32,
    {
        let (x, rem) = split_4096(key);
        let (y, z) = split_4096(rem);
        Self { x: x as i32, y: y as i32, z: z as i32 }
    }

    /// Packs a block position into its database key.
    pub fn to_block_key(&self) -> (key: i64)
        requires
            fits_key(self.x as int),
            fits_key(self.y as int),
            fits_key(self.z as int),
        ensures
            key == block_key_of(self.x as int, self.y as int, self.z as int),
    {
        self.x as i64 + self.y as i64 * 4096 + self.z as i64 * 4096 * 4096
    }

    /// Unpacks the index of a node inside its block: four bits for each of
    /// x, y and z, lowest first. Bits above the twelfth are ignored.
    pub fn from_u16_key(key: u16) -> (r: Self)
        ensures
            r.x == key % 16,
            r.y == (key / 16) % 16,
            r.z == (key / 256) % 16,
    {
        Self { x: (key % 16) as i32, y: ((key / 16) % 16) as i32, z: ((key / 256) % 16) as i32 }
    }

    pub open spec fn spec_is_valid_block_pos(&self) -> bool {
        &&& -BLOCK_LIMIT <= self.x <= BLOCK_LIMIT
        &&& -BLOCK_LIMIT <= self.y <= BLOCK_LIMIT
        &&& -BLOCK_LIMIT <= self.z <= BLOCK_LIMIT
    }

    /// Whether a block with this position lies within the map.
    #[verifier::when_used_as_spec(spec_is_valid_block_pos)]
    pub fn is_valid_block_pos(&self) -> (b: bool)
        ensures
            b == self.spec_is_valid_block_pos(),
    {
        -BLOCK_LIMIT <= self.x && self.x <= BLOCK_LIMIT && -BLOCK_LIMIT <= self.y && self.y
            <= BLOCK_LIMIT && -BLOCK_LIMIT <= self.z && self.z <= BLOCK_LIMIT
    }

    pub open spec fn spec_is_valid_node_pos(&self) -> bool {
        &&& -MAP_LIMIT <= self.x <= MAP_LIMIT
        &&& -MAP_LIMIT <= self.y <= MAP_LIMIT
        &&& -MAP_LIMIT <= self.z <= MAP_LIMIT
    }

    /// Whether a node with this position lies within the map.
    #[verifier::when_used_as_spec(spec_is_valid_node_pos)]
    pub fn is_valid_node_pos(&self) -> (b: bool)
        ensures
            b == self.spec_is_valid_node_pos(),
    {
        -MAP_LIMIT <= self.x && self.x <= MAP_LIMIT && -MAP_LIMIT <= self.y && self.y <= MAP_LIMIT
            && -MAP_LIMIT <= self.z && self.z <= MAP_LIMIT
    }

    /// The vector as text: `(x, y, z)`.
    pub open spec fn text(&self) -> Seq<u8> {
        seq![40u8] + decimal_text(self.x as int) + seq![44u8, 32u8] + decimal_text(self.y as int)
            + seq![44u8, 32u8] + decimal_text(self.z as int) + seq![41u8]
    }

    /// The vector as text: `(x, y, z)`.
    pub fn to_string(&self) -> (r: String)
        ensures
            r@ == ascii_chars(self.text()),
    {
        let mut out: Vec<u8> = Vec::new();
        out.push(40);
        push_decimal(&mut out, self.x as i64);
        out.push(44);
        out.push(32);
        push_decimal(&mut out, self.y as i64);
        out.push(44);
        out.push(32);
        push_decimal(&mut out, self.z as i64);
        out.push(41);
        proof {
            assert(out@ =~= self.text());
            lemma_decimal_digits_ascii((if self.x < 0 { -self.x } else { self.x as int }) as nat);
            lemma_decimal_digits_ascii((if self.y < 0 { -self.y } else { self.y as int }) as nat);
            lemma_decimal_digits_ascii((if self.z < 0 { -self.z } else { self.z as int }) as nat);
        }
        ascii_string(&out)
    }

    /// Applies `func` to each component.
    pub fn map<F: Fn(i32) -> i32>(&self, func: F) -> (r: Self)
        requires
            func.requires((self.x,)),
            func.requires((self.y,)),
            func.requires((self.z,)),
        ensures
            func.ensures((self.x,), r.x),
            func.ensures((self.y,), r.y),
            func.ensures((self.z,), r.z),
    {
        Self { x: func(self.x), y: func(self.y), z: func(self.z) }
    }
}

/// Splits `v` into its normalized low part and what is left above it.
fn split_4096(v: i64) -> (r: (i64, i64))
    ensures
        r.0 == wrap_4096(v as int),
        r.1 == (v - r.0) / 4096,
        -0x8_0000_0000_0000 <= r.1 <= 0x8_0000_0000_0000,
{
    let q: i64 = v.checked_div_euclid(4096).unwrap();
    let m: i64 = v.checked_rem_euclid(4096).unwrap();
    assert(v == 4096 * q + m) by {
        lemma_fundamental_div_mod(v as int, 4096);
    }
    if m >= 2048 {
        (m - 4096, q + 1)
    } else {
        (m, q)
    }
}

/// A key built from components that fit is taken apart into the same
/// components: unpacking undoes packing.
pub proof fn lemma_block_key_roundtrip(x: int, y: int, z: int)
    requires
        fits_key(x),
        fits_key(y),
        fits_key(z),
    ensures
        key_x(block_key_of(x, y, z)) == x,
        key_y(block_key_of(x, y, z)) == y,
        key_z(block_key_of(x, y, z)) == z,
{
    let key = block_key_of(x, y, z);
    let upper = y + 4096 * z;
    lemma_fundamental_div_mod_converse(key + 2048, 4096, upper, x + 2048);
    assert(key_x(key) == x);
    lemma_fundamental_div_mod_converse(key - x, 4096, upper, 0);
    assert((key - x) / 4096 == upper);
    lemma_fundamental_div_mod_converse(upper + 2048, 4096, z, y + 2048);
    assert(key_y(key) == y);
    lemma_fundamental_div_mod_converse(upper - y, 4096, z, 0);
}

/// Packing undoes unpacking for every key whose z component fits.
pub proof fn lemma_block_key_inverse(key: int)
    requires
        fits_key(key_z(key)),
    ensures
        fits_key(key_x(key)),
        fits_key(key_y(key)),
        block_key_of(key_x(key), key_y(key), key_z(key)) == key,
{
    let rem = (key - key_x(key)) / 4096;
    lemma_fundamental_div_mod(key + 2048, 4096);
    lemma_fundamental_div_mod(key - key_x(key), 4096);
    lemma_fundamental_div_mod_converse(key - key_x(key), 4096, (key + 2048) / 4096, 0);
    lemma_fundamental_div_mod(rem + 2048, 4096);
    lemma_fundamental_div_mod(rem - key_y(key), 4096);
    lemma_fundamental_div_mod_converse(rem - key_y(key), 4096, (rem + 2048) / 4096, 0);
}

/// Componentwise sum. The operands are left out for which a component
/// would leave the range of `i32`.
impl core::ops::Add for Vec3 {
    type Output = Vec3;

    fn add(self, rhs: Vec3) -> (r: Vec3) {
        Vec3 { x: self.x + rhs.x, y: self.y + rhs.y, z: self.z + rhs.z }
    }
}

impl AddSpecImpl for Vec3 {
    open spec fn obeys_add_spec() -> bool {
        true
    }

    open spec fn add_req(self, rhs: Vec3) -> bool {
        &&& i32::MIN <= self.x + rhs.x <= i32::MAX
        &&& i32::MIN <= self.y + rhs.y <= i32::MAX
        &&& i32::MIN <= self.z + rhs.z <= i32::MAX
    }

    open spec fn add_spec(self, rhs: Vec3) -> Vec3 {
        Vec3 { x: (self.x + rhs.x) as i32, y: (self.y + rhs.y) as i32, z: (self.z + rhs.z) as i32 }
    }
}

/// Each component with the same scalar: sum. The operands are left out for which a component
/// would leave the range of `i32`.
impl core::ops::Add<i32> for Vec3 {
    type Output = Vec3;

    fn add(self, rhs: i32) -> (r: Vec3) {
        Vec3 { x: self.x + rhs, y: self.y + rhs, z: self.z + rhs }
    }
}

impl AddSpecImpl<i32> for Vec3 {
    open spec fn obeys_add_spec() -> bool {
        true
    }

    open spec fn add_req(self, rhs: i32) -> bool {
        &&& i32::MIN <= self.x + rhs <= i32::MAX
        &&& i32::MIN <= self.y + rhs <= i32::MAX
        &&& i32::MIN <= self.z + rhs <= i32::MAX
    }

    open spec fn add_spec(self, rhs: i32) -> Vec3 {
        Vec3 { x: (self.x + rhs) as i32, y: (self.y + rhs) as i32, z: (self.z + rhs) as i32 }
    }
}

/// Componentwise difference. The operands are left out for which a component
/// would leave the range of `i32`.
impl core::ops::Sub for Vec3 {
    type Output = Vec3;

    fn sub(self, rhs: Vec3) -> (r: Vec3) {
        Vec3 { x: self.x - rhs.x, y: self.y - rhs.y, z: self.z - rhs.z }
    }
}

impl SubSpecImpl for Vec3 {
    open spec fn obeys_sub_spec() -> bool {
        true
    }

    open spec fn sub_req(self, rhs: Vec3) -> bool {
        &&& i32::MIN <= self.x - rhs.x <= i32::MAX
        &&& i32::MIN <= self.y - rhs.y <= i32::MAX
        &&& i32::MIN <= self.z - rhs.z <= i32::MAX
    }

    open spec fn sub_spec(self, rhs: Vec3) -> Vec3 {
        Vec3 { x: (self.x - rhs.x) as i32, y: (self.y - rhs.y) as i32, z: (self.z - rhs.z) as i32 }
    }
}

/// Each component with the same scalar: difference. The operands are left out for which a component
/// would leave the range of `i32`.
impl core::ops::Sub<i32> for Vec3 {
    type Output = Vec3;

    fn sub(self, rhs: i32) -> (r: Vec3) {
        Vec3 { x: self.x - rhs, y: self.y - rhs, z: self.z - rhs }
    }
}

impl SubSpecImpl<i32> for Vec3 {
    open spec fn obeys_sub_spec() -> bool {
        true
    }

    open spec fn sub_req(self, rhs: i32) -> bool {
        &&& i32::MIN <= self.x - rhs <= i32::MAX
        &&& i32::MIN <= self.y - rhs <= i32::MAX
        &&& i32::MIN <= self.z - rhs <= i32::MAX
    }

    open spec fn sub_spec(self, rhs: i32) -> Vec3 {
        Vec3 { x: (self.x - rhs) as i32, y: (self.y - rhs) as i32, z: (self.z - rhs) as i32 }
    }
}

/// Componentwise product. The operands are left out for which a component
/// would leave the range of `i32`.
impl core::ops::Mul for Vec3 {
    type Output = Vec3;

    fn mul(self, rhs: Vec3) -> (r: Vec3) {
        Vec3 { x: self.x * rhs.x, y: self.y * rhs.y, z: self.z * rhs.z }
    }
}

impl MulSpecImpl for Vec3 {
    open spec fn obeys_mul_spec() -> bool {
        true
    }

    open spec fn mul_req(self, rhs: Vec3) -> bool {
        &&& i32::MIN <= self.x * rhs.x <= i32::MAX
        &&& i32::MIN <= self.y * rhs.y <= i32::MAX
        &&& i32::MIN <= self.z * rhs.z <= i32::MAX
    }

    open spec fn mul_spec(self, rhs: Vec3) -> Vec3 {
        Vec3 { x: (self.x * rhs.x) as i32, y: (self.y * rhs.y) as i32, z: (self.z * rhs.z) as i32 }
    }
}

/// Each component with the same scalar: product. The operands are left out for which a component
/// would leave the range of `i32`.
impl core::ops::Mul<i32> for Vec3 {
    type Output = Vec3;

    fn mul(self, rhs: i32) -> (r: Vec3) {
        Vec3 { x: self.x * rhs, y: self.y * rhs, z: self.z * rhs }
    }
}

impl MulSpecImpl<i32> for Vec3 {
    open spec fn obeys_mul_spec() -> bool {
        true
    }

    open spec fn mul_req(self, rhs: i32) -> bool {
        &&& i32::MIN <= self.x * rhs <= i32::MAX
        &&& i32::MIN <= self.y * rhs <= i32::MAX
        &&& i32::MIN <= self.z * rhs <= i32::MAX
    }

    open spec fn mul_spec(self, rhs: i32) -> Vec3 {
        Vec3 { x: (self.x * rhs) as i32, y: (self.y * rhs) as i32, z: (self.z * rhs) as i32 }
    }
}

} // verus!
