//! Byte utilities: the bytes of a number as its hexadecimal digits pair up,
//! byte strings of a fixed length, and integers made of a repeated unit.

use vstd::prelude::*;

verus! {

/// The bytes that the hexadecimal digits of `n` spell when they are paired
/// up from the right: the digits of `n` in base 256, most significant first,
/// and one zero byte for zero.
pub open spec fn hex_bytes(n: nat) -> Seq<u8>
    decreases n,
{
    if n < 256 {
        seq![n as u8]
    } else {
        hex_bytes(n / 256).push((n % 256) as u8)
    }
}

/// The number that the bytes `b` write in base 256, most significant first.
pub open spec fn be_value(b: Seq<u8>) -> nat
    decreases b.len(),
{
    if b.len() == 0 {
        0
    } else {
        be_value(b.drop_last()) * 256 + b.last() as nat
    }
}

/// The bytes of a number write that number, and start with a zero byte only
/// for a number below 256.
pub proof fn lemma_hex_bytes_value(n: nat)
    ensures
        be_value(hex_bytes(n)) == n,
        hex_bytes(n).len() >= 1,
        n >= 256 ==> hex_bytes(n)[0] != 0,
    decreases n,
{
    if n < 256 {
        assert(hex_bytes(n).drop_last() =~= Seq::<u8>::empty());
        assert(be_value(hex_bytes(n).drop_last()) == 0);
    } else {
        lemma_hex_bytes_value(n / 256);
        assert(hex_bytes(n).drop_last() =~= hex_bytes(n / 256));
        if n / 256 < 256 {
            assert(hex_bytes(n / 256)[0] == (n / 256) as u8);
        }
    }
}

/// Writes `n` in base 256, most significant byte first.
fn bytes_of(n: u128) -> (r: Vec<u8>)
    ensures
        r@ == hex_bytes(n as nat),
    decreases n,
{
    if n < 256 {
        let mut r: Vec<u8> = Vec::new();
        r.push(n as u8);
        assert(r@ =~= hex_bytes(n as nat));
        r
    } else {
        let mut r = bytes_of(n / 256);
        r.push((n % 256) as u8);
        r
    }
}

/// Why hexadecimal digits could not be turned into bytes.
#[derive(Clone, Copy, Debug, PartialEq, Eq, Structural)]
pub enum HexToBytesError {
    /// A pair of digits is no number.
    ParseError,
    /// The digits are not valid UTF-8.
    UTF8Error,
}

/// A number that can be written as the bytes its hexadecimal digits spell.
pub trait HexToBytes {
    /// The number whose digits are written: the value itself, or for a
    /// negative value its two's complement at the width of the type.
    spec fn hex_value(&self) -> nat;

    /// The bytes that hold one pair of hexadecimal digits each.
    fn hex_to_bytes(&self) -> (r: Vec<u8>)
        ensures
            r@ == hex_bytes(self.hex_value()),
    ;
}

impl HexToBytes for u8 {
    open spec fn hex_value(&self) -> nat {
        *self as nat
    }

    fn hex_to_bytes(&self) -> (r: Vec<u8>) {
        bytes_of(*self as u128)
    }
}

impl HexToBytes for u16 {
    open spec fn hex_value(&self) -> nat {
        *self as nat
    }

    fn hex_to_bytes(&self) -> (r: Vec<u8>) {
        bytes_of(*self as u128)
    }
}

impl HexToBytes for u32 {
    open spec fn hex_value(&self) -> nat {
        *self as nat
    }

    fn hex_to_bytes(&self) -> (r: Vec<u8>) {
        bytes_of(*self as u128)
    }
}

impl HexToBytes for u64 {
    open spec fn hex_value(&self) -> nat {
        *self as nat
    }

    fn hex_to_bytes(&self) -> (r: Vec<u8>) {
        bytes_of(*self as u128)
    }
}

impl HexToBytes for u128 {
    open spec fn hex_value(&self) -> nat {
        *self as nat
    }

    fn hex_to_bytes(&self) -> (r: Vec<u8>) {
        bytes_of(*self as u128)
    }
}

impl HexToBytes for usize {
    open spec fn hex_value(&self) -> nat {
        *self as nat
    }

    fn hex_to_bytes(&self) -> (r: Vec<u8>) {
        bytes_of(*self as u128)
    }
}

impl HexToBytes for i8 {
    open spec fn hex_value(&self) -> nat {
        if *self >= 0 {
            *self as nat
        } else {
            (*self + 0x100) as nat
        }
    }

    fn hex_to_bytes(&self) -> (r: Vec<u8>) {
        if *self >= 0 {
            bytes_of(*self as u128)
        } else {
            let wide: i16 = *self as i16 + 0x100i16;
            bytes_of(wide as u128)
        }
    }
}

impl HexToBytes for i16 {
    open spec fn hex_value(&self) -> nat {
        if *self >= 0 {
            *self as nat
        } else {
            (*self + 0x1_0000) as nat
        }
    }

    fn hex_to_bytes(&self) -> (r: Vec<u8>) {
        if *self >= 0 {
            bytes_of(*self as u128)
        } else {
            let wide: i32 = *self as i32 + 0x1_0000i32;
            bytes_of(wide as u128)
        }
    }
}

impl HexToBytes for i32 {
    open spec fn hex_value(&self) -> nat {
        if *self >= 0 {
            *self as nat
        } else {
            (*self + 0x1_0000_0000) as nat
        }
    }

    fn hex_to_bytes(&self) -> (r: Vec<u8>) {
        if *self >= 0 {
            bytes_of(*self as u128)
        } else {
            let wide: i64 = *self as i64 + 0x1_0000_0000i64;
            bytes_of(wide as u128)
        }
    }
}

impl HexToBytes for i64 {
    open spec fn hex_value(&self) -> nat {
        if *self >= 0 {
            *self as nat
        } else {
            (*self + 0x1_0000_0000_0000_0000) as nat
        }
    }

    fn hex_to_bytes(&self) -> (r: Vec<u8>) {
        if *self >= 0 {
            bytes_of(*self as u128)
        } else {
            let wide: i128 = *self as i128 + 0x1_0000_0000_0000_0000i128;
            bytes_of(wide as u128)
        }
    }
}

impl HexToBytes for i128 {
    open spec fn hex_value(&self) -> nat {
        if *self >= 0 {
            *self as nat
        } else {
            (*self + 2 * 0x8000_0000_0000_0000_0000_0000_0000_0000int) as nat
        }
    }

    fn hex_to_bytes(&self) -> (r: Vec<u8>) {
        if *self >= 0 {
            bytes_of(*self as u128)
        } else {
            let low: u128 = (*self - i128::MIN) as u128;
            bytes_of(low + 0x8000_0000_0000_0000_0000_0000_0000_0000u128)
        }
    }
}

impl HexToBytes for isize {
    open spec fn hex_value(&self) -> nat {
        if *self >= 0 {
            *self as nat
        } else {
            (*self + usize::MAX + 1) as nat
        }
    }

    fn hex_to_bytes(&self) -> (r: Vec<u8>) {
        if *self >= 0 {
            bytes_of(*self as u128)
        } else {
            let wide: i128 = *self as i128 + usize::MAX as i128 + 1;
            bytes_of(wide as u128)
        }
    }
}

/// The side of a byte string that is padded or cut.
#[derive(Clone, Copy, Debug, PartialEq, Eq, Structural)]
pub enum Side {
    Left,
    Right,
}

/// `bytes` brought to the length `len`. On the right, `with` is appended or
/// the end is cut off; on the left, `with` is put in front or the start is
/// cut off.
pub open spec fn padded(bytes: Seq<u8>, len: nat, side: Side, with: u8) -> Seq<u8> {
    Seq::new(
        len,
        |i: int|
            match side {
                Side::Right => if i < bytes.len() {
                    bytes[i]
                } else {
                    with
                },
                Side::Left => if i + bytes.len() >= len {
                    bytes[i + bytes.len() - len]
                } else {
                    with
                },
            },
    )
}

/// Brings `bytes` to the length `FINAL`.
pub fn pad_slice<const FINAL: usize>(bytes: &[u8], side: Side, with: u8) -> (r: [u8; FINAL])
    ensures
        r@ == padded(bytes@, FINAL as nat, side, with),
{
    let n: usize = bytes.len();
    let mut r: [u8; FINAL] = [with;FINAL];
    let mut i: usize = 0;
    while i < FINAL
        invariant
            i <= FINAL,
            n == bytes@.len(),
            r@.len() == FINAL,
            forall|j: int| 0 <= j < i ==> r@[j] == padded(bytes@, FINAL as nat, side, with)[j],
        decreases FINAL - i,
    {
        let byte: u8 = match side {
            Side::Right => if i < n {
                bytes[i]
            } else {
                with
            },
            Side::Left => if n >= FINAL - i {
                bytes[n - (FINAL - i)]
            } else {
                with
            },
        };
        r[i] = byte;
        i = i + 1;
    }
    assert(r@ =~= padded(bytes@, FINAL as nat, side, with));
    r
}

/// A byte string that can be brought to a fixed length.
pub trait Pad: Sized {
    /// The bytes of the string.
    spec fn bytes(&self) -> Seq<u8>;

    /// Pads with zero bytes.
    fn pad<const FINAL: usize>(self, side: Side) -> (r: [u8; FINAL])
        ensures
            r@ == padded(self.bytes(), FINAL as nat, side, 0),
    ;

    /// Pads with zero bytes on the left to the length `L`, then on the right
    /// to the length `R`.
    fn pad_both<const L: usize, const R: usize>(self) -> (r: [u8; R])
        ensures
            r@ == padded(padded(self.bytes(), L as nat, Side::Left, 0), R as nat, Side::Right, 0),
    ;

    /// Pads with `with` on the left to the length `L`, then on the right to
    /// the length `R`.
    fn pad_both_with<const L: usize, const R: usize>(self, with: u8) -> (r: [u8; R])
        ensures
            r@ == padded(
                padded(self.bytes(), L as nat, Side::Left, with),
                R as nat,
                Side::Right,
                with,
            ),
    ;

    /// Brings the string to the length `FINAL`: where it is shorter, `with`
    /// is added on the given side; where it is longer, bytes are removed
    /// from that side.
    fn pad_with<const FINAL: usize>(self, side: Side, with: u8) -> (r: [u8; FINAL])
        ensures
            r@ == padded(self.bytes(), FINAL as nat, side, with),
    ;
}

impl Pad for Vec<u8> {
    open spec fn bytes(&self) -> Seq<u8> {
        self@
    }

    fn pad<const FINAL: usize>(self, side: Side) -> (r: [u8; FINAL]) {
        pad_slice::<FINAL>(self.as_slice(), side, 0)
    }

    fn pad_both<const L: usize, const R: usize>(self) -> (r: [u8; R]) {
        let left = pad_slice::<L>(self.as_slice(), Side::Left, 0);
        pad_slice::<R>(left.as_slice(), Side::Right, 0)
    }

    fn pad_both_with<const L: usize, const R: usize>(self, with: u8) -> (r: [u8; R]) {
        let left = pad_slice::<L>(self.as_slice(), Side::Left, with);
        pad_slice::<R>(left.as_slice(), Side::Right, with)
    }

    fn pad_with<const FINAL: usize>(self, side: Side, with: u8) -> (r: [u8; FINAL]) {
        pad_slice::<FINAL>(self.as_slice(), side, with)
    }
}

impl<const N: usize> Pad for [u8; N] {
    open spec fn bytes(&self) -> Seq<u8> {
        self@
    }

    fn pad<const FINAL: usize>(self, side: Side) -> (r: [u8; FINAL]) {
        pad_slice::<FINAL>(self.as_slice(), side, 0)
    }

    fn pad_both<const L: usize, const R: usize>(self) -> (r: [u8; R]) {
        let left = pad_slice::<L>(self.as_slice(), Side::Left, 0);
        pad_slice::<R>(left.as_slice(), Side::Right, 0)
    }

    fn pad_both_with<const L: usize, const R: usize>(self, with: u8) -> (r: [u8; R]) {
        let left = pad_slice::<L>(self.as_slice(), Side::Left, with);
        pad_slice::<R>(left.as_slice(), Side::Right, with)
    }

    fn pad_with<const FINAL: usize>(self, side: Side, with: u8) -> (r: [u8; FINAL]) {
        pad_slice::<FINAL>(self.as_slice(), side, with)
    }
}

/// The signed number whose two's complement is `pattern`, at the width
/// whose sign bit is worth `half`.
pub open spec fn as_signed(pattern: nat, half: nat) -> int {
    if pattern < half {
        pattern as int
    } else {
        pattern - 2 * half
    }
}

/// An integer that can be made of a smaller one, repeated until it is
/// full. A unit that is negative fills the integer by its sign alone, so the
/// integer is the unit itself.
pub trait Repeat<Unit>: Sized {
    /// The integer whose every unit holds `from`.
    spec fn repeated(from: Unit) -> Self;

    /// Makes an integer by repeating `from` in each of its units.
    fn from_repeated(from: Unit) -> (r: Self)
        ensures
            r == Self::repeated(from),
    ;
}

impl Repeat<u8> for u16 {
    open spec fn repeated(from: u8) -> u16 {
        (from as nat * 0x0101) as u16
    }

    fn from_repeated(from: u8) -> (r: u16) {
        let v: u16 = from as u16;
        let r: u16 = v | (v << 8);
        assert(r == v * 0x0101) by (bit_vector)
            requires
                v < 0x100,
                r == v | (v << 8),
        ;
        r
    }
}

impl Repeat<u8> for u32 {
    open spec fn repeated(from: u8) -> u32 {
        (from as nat * 0x0101_0101) as u32
    }

    fn from_repeated(from: u8) -> (r: u32) {
        let v: u32 = from as u32;
        let r: u32 = v | (v << 8) | (v << 16) | (v << 24);
        assert(r == v * 0x0101_0101) by (bit_vector)
            requires
                v < 0x100,
                r == v | (v << 8) | (v << 16) | (v << 24),
        ;
        r
    }
}

impl Repeat<u8> for u64 {
    open spec fn repeated(from: u8) -> u64 {
        (from as nat * 0x0101_0101_0101_0101) as u64
    }

    fn from_repeated(from: u8) -> (r: u64) {
        let v: u64 = from as u64;
        let r: u64 = v | (v << 8) | (v << 16) | (v << 24) | (v << 32) | (v << 40) | (v << 48) | (v << 56);
        assert(r == v * 0x0101_0101_0101_0101) by (bit_vector)
            requires
                v < 0x100,
                r == v | (v << 8) | (v << 16) | (v << 24) | (v << 32) | (v << 40) | (v << 48) | (v << 56),
        ;
        r
    }
}

impl Repeat<u16> for u32 {
    open spec fn repeated(from: u16) -> u32 {
        (from as nat * 0x0001_0001) as u32
    }

    fn from_repeated(from: u16) -> (r: u32) {
        let v: u32 = from as u32;
        let r: u32 = v | (v << 16);
        assert(r == v * 0x0001_0001) by (bit_vector)
            requires
                v < 0x1_0000,
                r == v | (v << 16),
        ;
        r
    }
}

impl Repeat<u16> for u64 {
    open spec fn repeated(from: u16) -> u64 {
        (from as nat * 0x0001_0001_0001_0001) as u64
    }

    fn from_repeated(from: u16) -> (r: u64) {
        let v: u64 = from as u64;
        let r: u64 = v | (v << 16) | (v << 32) | (v << 48);
        assert(r == v * 0x0001_0001_0001_0001) by (bit_vector)
            requires
                v < 0x1_0000,
                r == v | (v << 16) | (v << 32) | (v << 48),
        ;
        r
    }
}

impl Repeat<u32> for u64 {
    open spec fn repeated(from: u32) -> u64 {
        (from as nat * 0x0000_0001_0000_0001) as u64
    }

    fn from_repeated(from: u32) -> (r: u64) {
        let v: u64 = from as u64;
        let r: u64 = v | (v << 32);
        assert(r == v * 0x0000_0001_0000_0001) by (bit_vector)
            requires
                v < 0x1_0000_0000,
                r == v | (v << 32),
        ;
        r
    }
}

impl Repeat<u8> for u128 {
    open spec fn repeated(from: u8) -> u128 {
        (from as nat * 0x0101_0101_0101_0101_0101_0101_0101_0101) as u128
    }

    fn from_repeated(from: u8) -> (r: u128) {
        let half: u128 = (u64::from_repeated(from)) as u128;
        let r: u128 = half | (half << 64);
        assert(r == half * 0x1_0000_0000_0000_0001) by (bit_vector)
            requires
                half < 0x1_0000_0000_0000_0000,
                r == half | (half << 64),
        ;
        r
    }
}

impl Repeat<u16> for u128 {
    open spec fn repeated(from: u16) -> u128 {
        (from as nat * 0x0001_0001_0001_0001_0001_0001_0001_0001) as u128
    }

    fn from_repeated(from: u16) -> (r: u128) {
        let half: u128 = (u64::from_repeated(from)) as u128;
        let r: u128 = half | (half << 64);
        assert(r == half * 0x1_0000_0000_0000_0001) by (bit_vector)
            requires
                half < 0x1_0000_0000_0000_0000,
                r == half | (half << 64),
        ;
        r
    }
}

impl Repeat<u32> for u128 {
    open spec fn repeated(from: u32) -> u128 {
        (from as nat * 0x0001_0000_0001_0000_0001_0000_0001) as u128
    }

    fn from_repeated(from: u32) -> (r: u128) {
        let half: u128 = (u64::from_repeated(from)) as u128;
        let r: u128 = half | (half << 64);
        assert(r == half * 0x1_0000_0000_0000_0001) by (bit_vector)
            requires
                half < 0x1_0000_0000_0000_0000,
                r == half | (half << 64),
        ;
        r
    }
}

impl Repeat<u64> for u128 {
    open spec fn repeated(from: u64) -> u128 {
        (from as nat * 0x0001_0000_0000_0000_0001) as u128
    }

    fn from_repeated(from: u64) -> (r: u128) {
        let half: u128 = (from as u64) as u128;
        let r: u128 = half | (half << 64);
        assert(r == half * 0x1_0000_0000_0000_0001) by (bit_vector)
            requires
                half < 0x1_0000_0000_0000_0000,
                r == half | (half << 64),
        ;
        r
    }
}

/// The signed integer with the bits of `pattern`.
fn signed16(pattern: u16) -> (r: i16)
    ensures
        r == as_signed(pattern as nat, 0x8000),
{
    if pattern < 0x8000 {
        pattern as i16
    } else {
        (pattern - 0x8000) as i16 + i16::MIN
    }
}

/// The signed integer with the bits of `pattern`.
fn signed32(pattern: u32) -> (r: i32)
    ensures
        r == as_signed(pattern as nat, 0x8000_0000),
{
    if pattern < 0x8000_0000 {
        pattern as i32
    } else {
        (pattern - 0x8000_0000) as i32 + i32::MIN
    }
}

/// The signed integer with the bits of `pattern`.
fn signed64(pattern: u64) -> (r: i64)
    ensures
        r == as_signed(pattern as nat, 0x8000_0000_0000_0000),
{
    if pattern < 0x8000_0000_0000_0000 {
        pattern as i64
    } else {
        (pattern - 0x8000_0000_0000_0000) as i64 + i64::MIN
    }
}

/// The signed integer with the bits of `pattern`.
fn signed128(pattern: u128) -> (r: i128)
    ensures
        r == as_signed(pattern as nat, 0x8000_0000_0000_0000_0000_0000_0000_0000),
{
    if pattern < 0x8000_0000_0000_0000_0000_0000_0000_0000 {
        pattern as i128
    } else {
        (pattern - 0x8000_0000_0000_0000_0000_0000_0000_0000) as i128 + i128::MIN
    }
}

impl Repeat<u8> for i16 {
    open spec fn repeated(from: u8) -> i16 {
        as_signed(from as nat * 0x0101, 0x8000) as i16
    }

    fn from_repeated(from: u8) -> (r: i16) {
        signed16(u16::from_repeated(from))
    }
}

impl Repeat<i8> for i16 {
    open spec fn repeated(from: i8) -> i16 {
        if from >= 0 {
            (from as nat * 0x0101) as i16
        } else {
            from as i16
        }
    }

    fn from_repeated(from: i8) -> (r: i16) {
        if from >= 0 {
            signed16(u16::from_repeated(from as u8))
        } else {
            from as i16
        }
    }
}

impl Repeat<u8> for i32 {
    open spec fn repeated(from: u8) -> i32 {
        as_signed(from as nat * 0x0101_0101, 0x8000_0000) as i32
    }

    fn from_repeated(from: u8) -> (r: i32) {
        signed32(u32::from_repeated(from))
    }
}

impl Repeat<i8> for i32 {
    open spec fn repeated(from: i8) -> i32 {
        if from >= 0 {
            (from as nat * 0x0101_0101) as i32
        } else {
            from as i32
        }
    }

    fn from_repeated(from: i8) -> (r: i32) {
        if from >= 0 {
            signed32(u32::from_repeated(from as u8))
        } else {
            from as i32
        }
    }
}

impl Repeat<u16> for i32 {
    open spec fn repeated(from: u16) -> i32 {
        as_signed(from as nat * 0x0001_0001, 0x8000_0000) as i32
    }

    fn from_repeated(from: u16) -> (r: i32) {
        signed32(u32::from_repeated(from))
    }
}

impl Repeat<i16> for i32 {
    open spec fn repeated(from: i16) -> i32 {
        if from >= 0 {
            (from as nat * 0x0001_0001) as i32
        } else {
            from as i32
        }
    }

    fn from_repeated(from: i16) -> (r: i32) {
        if from >= 0 {
            signed32(u32::from_repeated(from as u16))
        } else {
            from as i32
        }
    }
}

impl Repeat<u8> for i64 {
    open spec fn repeated(from: u8) -> i64 {
        as_signed(from as nat * 0x0101_0101_0101_0101, 0x8000_0000_0000_0000) as i64
    }

    fn from_repeated(from: u8) -> (r: i64) {
        signed64(u64::from_repeated(from))
    }
}

impl Repeat<i8> for i64 {
    open spec fn repeated(from: i8) -> i64 {
        if from >= 0 {
            (from as nat * 0x0101_0101_0101_0101) as i64
        } else {
            from as i64
        }
    }

    fn from_repeated(from: i8) -> (r: i64) {
        if from >= 0 {
            signed64(u64::from_repeated(from as u8))
        } else {
            from as i64
        }
    }
}

impl Repeat<u16> for i64 {
    open spec fn repeated(from: u16) -> i64 {
        as_signed(from as nat * 0x0001_0001_0001_0001, 0x8000_0000_0000_0000) as i64
    }

    fn from_repeated(from: u16) -> (r: i64) {
        signed64(u64::from_repeated(from))
    }
}

impl Repeat<i16> for i64 {
    open spec fn repeated(from: i16) -> i64 {
        if from >= 0 {
            (from as nat * 0x0001_0001_0001_0001) as i64
        } else {
            from as i64
        }
    }

    fn from_repeated(from: i16) -> (r: i64) {
        if from >= 0 {
            signed64(u64::from_repeated(from as u16))
        } else {
            from as i64
        }
    }
}

impl Repeat<u32> for i64 {
    open spec fn repeated(from: u32) -> i64 {
        as_signed(from as nat * 0x0001_0000_0001, 0x8000_0000_0000_0000) as i64
    }

    fn from_repeated(from: u32) -> (r: i64) {
        signed64(u64::from_repeated(from))
    }
}

impl Repeat<i32> for i64 {
    open spec fn repeated(from: i32) -> i64 {
        if from >= 0 {
            (from as nat * 0x0001_0000_0001) as i64
        } else {
            from as i64
        }
    }

    fn from_repeated(from: i32) -> (r: i64) {
        if from >= 0 {
            signed64(u64::from_repeated(from as u32))
        } else {
            from as i64
        }
    }
}

impl Repeat<u8> for i128 {
    open spec fn repeated(from: u8) -> i128 {
        as_signed(from as nat * 0x0101_0101_0101_0101_0101_0101_0101_0101, 0x8000_0000_0000_0000_0000_0000_0000_0000) as i128
    }

    fn from_repeated(from: u8) -> (r: i128) {
        signed128(u128::from_repeated(from))
    }
}

impl Repeat<i8> for i128 {
    open spec fn repeated(from: i8) -> i128 {
        if from >= 0 {
            (from as nat * 0x0101_0101_0101_0101_0101_0101_0101_0101) as i128
        } else {
            from as i128
        }
    }

    fn from_repeated(from: i8) -> (r: i128) {
        if from >= 0 {
            signed128(u128::from_repeated(from as u8))
        } else {
            from as i128
        }
    }
}

impl Repeat<u16> for i128 {
    open spec fn repeated(from: u16) -> i128 {
        as_signed(from as nat * 0x0001_0001_0001_0001_0001_0001_0001_0001, 0x8000_0000_0000_0000_0000_0000_0000_0000) as i128
    }

    fn from_repeated(from: u16) -> (r: i128) {
        signed128(u128::from_repeated(from))
    }
}

impl Repeat<i16> for i128 {
    open spec fn repeated(from: i16) -> i128 {
        if from >= 0 {
            (from as nat * 0x0001_0001_0001_0001_0001_0001_0001_0001) as i128
        } else {
            from as i128
        }
    }

    fn from_repeated(from: i16) -> (r: i128) {
        if from >= 0 {
            signed128(u128::from_repeated(from as u16))
        } else {
            from as i128
        }
    }
}

impl Repeat<u32> for i128 {
    open spec fn repeated(from: u32) -> i128 {
        as_signed(from as nat * 0x0001_0000_0001_0000_0001_0000_0001, 0x8000_0000_0000_0000_0000_0000_0000_0000) as i128
    }

    fn from_repeated(from: u32) -> (r: i128) {
        signed128(u128::from_repeated(from))
    }
}

impl Repeat<i32> for i128 {
    open spec fn repeated(from: i32) -> i128 {
        if from >= 0 {
            (from as nat * 0x0001_0000_0001_0000_0001_0000_0001) as i128
        } else {
            from as i128
        }
    }

    fn from_repeated(from: i32) -> (r: i128) {
        if from >= 0 {
            signed128(u128::from_repeated(from as u32))
        } else {
            from as i128
        }
    }
}

impl Repeat<u64> for i128 {
    open spec fn repeated(from: u64) -> i128 {
        as_signed(from as nat * 0x0001_0000_0000_0000_0001, 0x8000_0000_0000_0000_0000_0000_0000_0000) as i128
    }

    fn from_repeated(from: u64) -> (r: i128) {
        signed128(u128::from_repeated(from))
    }
}

impl Repeat<i64> for i128 {
    open spec fn repeated(from: i64) -> i128 {
        if from >= 0 {
            (from as nat * 0x0001_0000_0000_0000_0001) as i128
        } else {
            from as i128
        }
    }

    fn from_repeated(from: i64) -> (r: i128) {
        if from >= 0 {
            signed128(u128::from_repeated(from as u64))
        } else {
            from as i128
        }
    }
}

} // verus!
